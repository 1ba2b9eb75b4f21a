//! The multi-account library: its index rows, the identity claims read from
//! credentials, and every change the app makes to the index.
//!
//! On disk the library is `<app_home>/accounts/index.json` plus one
//! `<id>/auth.json` per account; reading and writing those files is the
//! app's, deciding what they hold is here.

use vstd::prelude::*;
use crate::auth::{
    CodexAuth, LoginUsability, jwt_claims, spec_is_api_key, spec_is_oauth, spec_jwt_claims,
    spec_login_usability_at,
};
use crate::error::AppError;
use crate::json::{Json, json_get, opt_get, opt_str, str_opt, get_opt, opt_deref};
use crate::paths::Paths;
use crate::text::{chars_eq, chars_eq_str, chars_of, push_str, string_from_chars};
use crate::time::{Timestamp, rfc3339_of_unix, spec_rfc3339_of_unix};

verus! {

#[derive(Debug, Clone, Copy, PartialEq, Eq, Structural)]
pub enum AccountAuthMode {
    Oauth,
    ApiKey,
    Unknown,
}

/// Public account row surfaced to the frontend.
#[derive(Debug, Clone)]
pub struct AccountRow {
    pub id: String,
    pub label: String,
    pub email: Option<String>,
    pub subject_id: Option<String>,
    pub account_id: Option<String>,
    pub plan_type: Option<String>,
    pub subscription_active_until: Option<String>,
    pub auth_mode: AccountAuthMode,
    pub added_at: Timestamp,
    pub last_used_at: Option<Timestamp>,
    pub requires_reauth: bool,
    pub last_error: Option<String>,
    pub workspace: Option<String>,
}

#[derive(Debug, Clone)]
pub struct AccountIndex {
    pub active_id: Option<String>,
    pub accounts: Vec<AccountRow>,
}

impl Default for AccountIndex {
    fn default() -> (r: AccountIndex)
        ensures
            r.active_id is None,
            r.accounts@.len() == 0,
    {
        AccountIndex { active_id: None, accounts: Vec::new() }
    }
}

/// The account library of one `Paths` layout.
pub struct AccountStore<'a> {
    paths: &'a Paths,
}

impl<'a> AccountStore<'a> {
    pub fn new(paths: &'a Paths) -> (r: Self)
        ensures
            r.spec_paths() == paths,
    {
        Self { paths }
    }

    pub closed spec fn spec_paths(&self) -> &'a Paths {
        self.paths
    }

    /// The layout this store reads and writes.
    pub fn paths(&self) -> (r: &'a Paths)
        ensures
            r == self.spec_paths(),
    {
        self.paths
    }
}

/// The view of an optional string.
pub open spec fn opt_view(o: Option<String>) -> Option<Seq<char>> {
    match o {
        Some(s) => Some(s@),
        None => None,
    }
}

fn clone_opt(o: &Option<String>) -> (r: Option<String>)
    ensures
        opt_view(r) == opt_view(*o),
{
    match o {
        Some(s) => Some(s.clone()),
        None => None,
    }
}

/// The namespace under which OpenAI puts its ChatGPT claims in a JWT.
pub const OPENAI_AUTH_CLAIMS: &'static str = "https://api.openai.com/auth";

/// A string claim of a JWT payload.
pub open spec fn spec_jwt_str_claim(jwt: Seq<char>, key: Seq<char>) -> Option<Seq<char>> {
    opt_str(opt_get(spec_jwt_claims(jwt), key))
}

fn jwt_str_claim(jwt: &str, key: &str) -> (r: Option<String>)
    ensures
        opt_view(r) == spec_jwt_str_claim(jwt@, key@),
{
    let claims = jwt_claims(jwt);
    let c = match &claims {
        Some(j) => Some(j),
        None => None,
    };
    assert(opt_deref(c) == spec_jwt_claims(jwt@));
    let v = get_opt(c, key);
    str_opt(v)
}

/// The `sub` claim of a JWT.
pub fn decode_jwt_sub(jwt: &str) -> (r: Option<String>)
    ensures
        opt_view(r) == spec_jwt_str_claim(jwt@, "sub"@),
{
    jwt_str_claim(jwt, "sub")
}

/// The `email` claim of a JWT.
pub fn decode_jwt_email(jwt: &str) -> (r: Option<String>)
    ensures
        opt_view(r) == spec_jwt_str_claim(jwt@, "email"@),
{
    jwt_str_claim(jwt, "email")
}

/// The subscription end of a JWT: its
/// `https://api.openai.com/auth.chatgpt_subscription_active_until` claim,
/// as text when it is a string, else a Unix time printed in RFC 3339 (an
/// integer, or failing that the number truncated from `f64`).
pub open spec fn spec_subscription_until(jwt: Seq<char>) -> Option<Seq<char>> {
    match opt_get(opt_get(spec_jwt_claims(jwt), OPENAI_AUTH_CLAIMS@), "chatgpt_subscription_active_until"@) {
        None => None,
        Some(v) => match v {
            Json::Str(s) => Some(s@),
            Json::Number(n) => match n.int {
                Some(ts) => match spec_rfc3339_of_unix(ts as int) {
                    Some(x) => Some(x),
                    None => spec_rfc3339_of_unix(n.float_truncated as int),
                },
                None => spec_rfc3339_of_unix(n.float_truncated as int),
            },
            _ => None,
        },
    }
}

/// Reads the subscription end out of an id token.
pub fn decode_jwt_subscription_until(jwt: &str) -> (r: Option<String>)
    ensures
        opt_view(r) == spec_subscription_until(jwt@),
{
    let claims = jwt_claims(jwt);
    let c = match &claims {
        Some(j) => Some(j),
        None => None,
    };
    let ns = get_opt(c, OPENAI_AUTH_CLAIMS);
    let v = get_opt(ns, "chatgpt_subscription_active_until");
    match v {
        None => None,
        Some(j) => match j {
            Json::Str(s) => Some(s.clone()),
            Json::Number(n) => {
                if let Some(ts) = n.int {
                    if let Some(x) = rfc3339_of_unix(ts) {
                        return Some(x);
                    }
                }
                rfc3339_of_unix(n.float_truncated)
            },
            _ => None,
        },
    }
}

/// The `sub` claim of a credential's id token.
pub open spec fn spec_subject_id_from(a: CodexAuth) -> Option<Seq<char>> {
    match a.tokens {
        Some(t) => match t.id_token {
            Some(j) => spec_jwt_str_claim(j@, "sub"@),
            None => None,
        },
        None => None,
    }
}

/// The `email` claim of a credential's id token.
pub open spec fn spec_email_from(a: CodexAuth) -> Option<Seq<char>> {
    match a.tokens {
        Some(t) => match t.id_token {
            Some(j) => spec_jwt_str_claim(j@, "email"@),
            None => None,
        },
        None => None,
    }
}

/// The subscription end read from a credential's id token.
pub open spec fn spec_subscription_from(a: CodexAuth) -> Option<Seq<char>> {
    match a.tokens {
        Some(t) => match t.id_token {
            Some(j) => spec_subscription_until(j@),
            None => None,
        },
        None => None,
    }
}

/// The JWT `sub` claim of the credential's id token.
pub fn subject_id_from(auth: &CodexAuth) -> (r: Option<String>)
    ensures
        opt_view(r) == spec_subject_id_from(*auth),
{
    match &auth.tokens {
        Some(t) => match &t.id_token {
            Some(j) => decode_jwt_sub(j.as_str()),
            None => None,
        },
        None => None,
    }
}

/// The `sub` claim of a raw id token, for token responses that are not yet
/// a `CodexAuth`.
pub fn subject_id_from_idtoken(jwt: Option<&str>) -> (r: Option<String>)
    ensures
        jwt matches Some(j) ==> opt_view(r) == spec_jwt_str_claim(j@, "sub"@),
        jwt is None ==> r is None,
{
    match jwt {
        Some(j) => decode_jwt_sub(j),
        None => None,
    }
}

/// The JWT `email` claim of the credential's id token.
pub fn email_from(auth: &CodexAuth) -> (r: Option<String>)
    ensures
        opt_view(r) == spec_email_from(*auth),
{
    match &auth.tokens {
        Some(t) => match &t.id_token {
            Some(j) => decode_jwt_email(j.as_str()),
            None => None,
        },
        None => None,
    }
}

fn subscription_from(auth: &CodexAuth) -> (r: Option<String>)
    ensures
        opt_view(r) == spec_subscription_from(*auth),
{
    match &auth.tokens {
        Some(t) => match &t.id_token {
            Some(j) => decode_jwt_subscription_until(j.as_str()),
            None => None,
        },
        None => None,
    }
}

} // verus!

verus! {

/// How a credential logs in, as the account row records it.
pub open spec fn spec_auth_mode_of(a: CodexAuth) -> AccountAuthMode {
    if spec_is_api_key(a) {
        AccountAuthMode::ApiKey
    } else if spec_is_oauth(a) {
        AccountAuthMode::Oauth
    } else {
        AccountAuthMode::Unknown
    }
}

fn auth_mode_of(auth: &CodexAuth) -> (r: AccountAuthMode)
    ensures
        r == spec_auth_mode_of(*auth),
{
    if auth.is_api_key() {
        AccountAuthMode::ApiKey
    } else if auth.is_oauth() {
        AccountAuthMode::Oauth
    } else {
        AccountAuthMode::Unknown
    }
}

/// The id under which a credential is filed: its account id, else its
/// subject, else `imported`.
pub open spec fn spec_library_id(a: CodexAuth) -> Seq<char> {
    match a.tokens {
        Some(t) if t.account_id is Some => t.account_id->0@,
        _ => match spec_subject_id_from(a) {
            Some(s) => s,
            None => "imported"@,
        },
    }
}

/// The id under which a credential is filed in the library.
pub fn library_id_for(auth: &CodexAuth) -> (r: String)
    ensures
        r@ == spec_library_id(*auth),
{
    match auth.account_id() {
        Some(a) => a,
        None => match subject_id_from(auth) {
            Some(s) => s,
            None => "imported".to_owned(),
        },
    }
}

/// The row stored when a credential is added or replaced by hand: labelled
/// by the given label, else its email, else its id; never in need of
/// re-authentication; used now.
pub open spec fn is_row_for_credential(r: AccountRow, id: Seq<char>, label: Option<Seq<char>>, a: CodexAuth, now: Timestamp) -> bool {
    &&& r.id@ == id
    &&& r.label@ == (match label {
        Some(l) => l,
        None => match spec_email_from(a) {
            Some(e) => e,
            None => id,
        },
    })
    &&& opt_view(r.email) == spec_email_from(a)
    &&& opt_view(r.subject_id) == spec_subject_id_from(a)
    &&& opt_view(r.account_id) == (match a.tokens {
        Some(t) => opt_view(t.account_id),
        None => None,
    })
    &&& opt_view(r.plan_type) == opt_view(a.plan_type)
    &&& r.subscription_active_until is None
    &&& r.auth_mode == spec_auth_mode_of(a)
    &&& r.added_at == now
    &&& r.last_used_at == Some(now)
    &&& !r.requires_reauth
    &&& r.last_error is None
    &&& r.workspace is None
}

fn account_id_opt(auth: &CodexAuth) -> (r: Option<String>)
    ensures
        opt_view(r) == (match auth.tokens {
            Some(t) => opt_view(t.account_id),
            None => None,
        }),
{
    auth.account_id()
}

/// Builds the row for a credential stored by hand (or by a finished OAuth
/// login, with `label` `None`).
pub fn row_for_credential(id: &str, label: Option<String>, auth: &CodexAuth, now: Timestamp) -> (r: AccountRow)
    ensures
        is_row_for_credential(r, id@, opt_view(label), *auth, now),
{
    let email = email_from(auth);
    let label = match label {
        Some(l) => l,
        None => match &email {
            Some(e) => e.clone(),
            None => id.to_owned(),
        },
    };
    AccountRow {
        id: id.to_owned(),
        label,
        email,
        subject_id: subject_id_from(auth),
        account_id: account_id_opt(auth),
        plan_type: clone_opt(&auth.plan_type),
        subscription_active_until: None,
        auth_mode: auth_mode_of(auth),
        added_at: now,
        last_used_at: Some(now),
        requires_reauth: false,
        last_error: None,
        workspace: None,
    }
}

/// The row for the official credential imported into an empty library: as
/// a hand-stored row but with the subscription end from the id token, and
/// flagged for re-authentication when the credential is unusable at `now`.
pub open spec fn is_row_for_import(r: AccountRow, a: CodexAuth, now: Timestamp) -> bool {
    &&& r.id@ == spec_library_id(a)
    &&& r.label@ == (match spec_email_from(a) {
        Some(e) => e,
        None => spec_library_id(a),
    })
    &&& opt_view(r.email) == spec_email_from(a)
    &&& opt_view(r.subject_id) == spec_subject_id_from(a)
    &&& opt_view(r.account_id) == (match a.tokens {
        Some(t) => opt_view(t.account_id),
        None => None,
    })
    &&& opt_view(r.plan_type) == opt_view(a.plan_type)
    &&& opt_view(r.subscription_active_until) == spec_subscription_from(a)
    &&& r.auth_mode == spec_auth_mode_of(a)
    &&& r.added_at == now
    &&& r.last_used_at == Some(now)
    &&& r.requires_reauth == (spec_login_usability_at(a, now.secs) == LoginUsability::Invalid)
    &&& r.last_error is None
    &&& r.workspace is None
}

/// Builds the row under which the official credential is imported.
pub fn row_for_import(auth: &CodexAuth, now: Timestamp) -> (r: AccountRow)
    ensures
        is_row_for_import(r, *auth, now),
{
    let id = library_id_for(auth);
    let email = email_from(auth);
    let label = match &email {
        Some(e) => e.clone(),
        None => id.clone(),
    };
    let usability = auth.login_usability_at(now.secs);
    AccountRow {
        id,
        label,
        email,
        subject_id: subject_id_from(auth),
        account_id: account_id_opt(auth),
        plan_type: clone_opt(&auth.plan_type),
        subscription_active_until: subscription_from(auth),
        auth_mode: auth_mode_of(auth),
        added_at: now,
        last_used_at: Some(now),
        requires_reauth: usability == LoginUsability::Invalid,
        last_error: None,
        workspace: None,
    }
}

/// The row recorded after an OAuth login: filed under the library id,
/// labelled by its email or id, `ApiKey` if the credential is one and
/// `Oauth` otherwise.
pub open spec fn is_row_for_login(r: AccountRow, a: CodexAuth, now: Timestamp) -> bool {
    &&& is_row_for_credential(
        AccountRow { auth_mode: spec_auth_mode_of(a), ..r },
        spec_library_id(a),
        None,
        a,
        now,
    )
    &&& r.auth_mode == (if spec_is_api_key(a) { AccountAuthMode::ApiKey } else { AccountAuthMode::Oauth })
}

/// Builds the row recorded after an OAuth login.
pub fn row_for_login(auth: &CodexAuth, now: Timestamp) -> (r: AccountRow)
    ensures
        is_row_for_login(r, *auth, now),
{
    let id = library_id_for(auth);
    let mut row = row_for_credential(id.as_str(), None, auth, now);
    row.auth_mode = if auth.is_api_key() { AccountAuthMode::ApiKey } else { AccountAuthMode::Oauth };
    row
}

/// Index of the first row with id `id`, or -1.
pub open spec fn spec_find_row(rows: Seq<AccountRow>, id: Seq<char>) -> int
    decreases rows.len(),
{
    if rows.len() == 0 {
        -1
    } else if rows[0].id@ == id {
        0
    } else {
        let r = spec_find_row(rows.drop_first(), id);
        if r < 0 { -1 } else { r + 1 }
    }
}

proof fn lemma_find_row(rows: Seq<AccountRow>, id: Seq<char>, j: int)
    requires
        0 <= j <= rows.len(),
        forall|k: int| 0 <= k < j ==> rows[k].id@ != id,
        j < rows.len() ==> rows[j].id@ == id,
    ensures
        spec_find_row(rows, id) == (if j < rows.len() { j } else { -1 }),
    decreases j,
{
    if j > 0 {
        lemma_find_row(rows.drop_first(), id, j - 1);
    }
}

/// Position of the first row with id `id`.
pub fn find_row(idx: &AccountIndex, id: &str) -> (r: Option<usize>)
    ensures
        r matches Some(i) ==> spec_find_row(idx.accounts@, id@) == i && i < idx.accounts@.len(),
        r is None <==> spec_find_row(idx.accounts@, id@) < 0,
{
    let k = chars_of(id);
    let mut i: usize = 0;
    while i < idx.accounts.len()
        invariant
            i <= idx.accounts.len(),
            k@ == id@,
            forall|j: int| 0 <= j < i ==> idx.accounts@[j].id@ != id@,
        decreases idx.accounts.len() - i,
    {
        let name = chars_of(idx.accounts[i].id.as_str());
        if chars_eq(&name, &k) {
            proof { lemma_find_row(idx.accounts@, id@, i as int); }
            return Some(i);
        }
        i = i + 1;
    }
    proof { lemma_find_row(idx.accounts@, id@, i as int); }
    None
}

/// The rows after storing `row`: it replaces the first row with its id,
/// or is appended.
pub open spec fn upserted_rows(rows: Seq<AccountRow>, row: AccountRow) -> Seq<AccountRow> {
    let i = spec_find_row(rows, row.id@);
    if i >= 0 {
        rows.update(i, row)
    } else {
        rows.push(row)
    }
}

/// Stores `row` in the index: it replaces the first row with its id, or is
/// appended; a library without an active account makes it active.
pub fn upsert_row(idx: &mut AccountIndex, row: AccountRow)
    ensures
        final(idx).accounts@ == upserted_rows(old(idx).accounts@, row),
        opt_view(final(idx).active_id) == (match old(idx).active_id {
            Some(a) => Some(a@),
            None => Some(row.id@),
        }),
{
    let id = row.id.clone();
    match find_row(idx, id.as_str()) {
        Some(i) => {
            idx.accounts.set(i, row);
        },
        None => {
            idx.accounts.push(row);
        },
    }
    if idx.active_id.is_none() {
        idx.active_id = Some(id);
    }
}

/// The rows whose id is not `id`, in order.
pub open spec fn rows_without(rows: Seq<AccountRow>, id: Seq<char>) -> Seq<AccountRow>
    decreases rows.len(),
{
    if rows.len() == 0 {
        Seq::empty()
    } else {
        rows_without(rows.drop_last(), id) + if rows.last().id@ == id {
            Seq::empty()
        } else {
            seq![rows.last()]
        }
    }
}

/// The active account after removing `id` (leaving `rows`): the first
/// remaining account (if any) when `id` was active, else unchanged.
pub open spec fn active_after_removal(active: Option<Seq<char>>, rows: Seq<AccountRow>, id: Seq<char>) -> Option<Seq<char>> {
    if active == Some(id) {
        if rows.len() > 0 { Some(rows[0].id@) } else { None }
    } else {
        active
    }
}

/// Drops every row with id `id`; when that account was active, the first
/// remaining account (if any) becomes active.
pub fn remove_account(idx: &mut AccountIndex, id: &str)
    ensures
        final(idx).accounts@ == rows_without(old(idx).accounts@, id@),
        opt_view(final(idx).active_id) == active_after_removal(opt_view(old(idx).active_id), final(idx).accounts@, id@),
{
    let k = chars_of(id);
    let mut kept: Vec<AccountRow> = Vec::new();
    let mut rows: Vec<AccountRow> = Vec::new();
    std::mem::swap(&mut rows, &mut idx.accounts);
    let ghost all = rows@;
    let n: usize = rows.len();
    let mut i: usize = 0;
    assert(all.skip(0) =~= all);
    while rows.len() > 0
        invariant
            i <= n,
            n == all.len(),
            rows@ == all.skip(i as int),
            rows@.len() + i == n,
            k@ == id@,
            kept@ == rows_without(all.take(i as int), id@),
        decreases rows.len(),
    {
        let r = rows.remove(0);
        assert(r == all[i as int]);
        let name = chars_of(r.id.as_str());
        assert(all.take(i + 1).drop_last() =~= all.take(i as int));
        assert(all.take(i + 1).last() == all[i as int]);
        if !chars_eq(&name, &k) {
            kept.push(r);
        }
        assert(rows@ =~= all.skip(i + 1));
        i = i + 1;
    }
    assert(all.take(n as int) =~= all);
    idx.accounts = kept;
    let was_active = match &idx.active_id {
        Some(a) => {
            let av = chars_of(a.as_str());
            chars_eq(&av, &k)
        },
        None => false,
    };
    if was_active {
        idx.active_id = if idx.accounts.len() > 0 {
            Some(idx.accounts[0].id.clone())
        } else {
            None
        };
    }
}

/// Storing a row and then looking up its id finds that row.
pub proof fn lemma_upsert_then_find(rows: Seq<AccountRow>, row: AccountRow)
    ensures
        spec_find_row(upserted_rows(rows, row), row.id@) >= 0,
        upserted_rows(rows, row)[spec_find_row(upserted_rows(rows, row), row.id@)] == row,
{
    let i = spec_find_row(rows, row.id@);
    lemma_find_row_spec(rows, row.id@);
    let r2 = upserted_rows(rows, row);
    if i >= 0 {
        assert forall|k: int| 0 <= k < i implies r2[k].id@ != row.id@ by {
            assert(r2[k] == rows[k]);
        }
        lemma_find_row(r2, row.id@, i);
    } else {
        assert forall|k: int| 0 <= k < rows.len() implies r2[k].id@ != row.id@ by {
            assert(r2[k] == rows[k]);
        }
        lemma_find_row(r2, row.id@, rows.len() as int);
    }
}

/// `spec_find_row` names the first row with the id, or none.
proof fn lemma_find_row_spec(rows: Seq<AccountRow>, id: Seq<char>)
    ensures
        spec_find_row(rows, id) >= 0 ==> spec_find_row(rows, id) < rows.len()
            && rows[spec_find_row(rows, id)].id@ == id
            && forall|k: int| 0 <= k < spec_find_row(rows, id) ==> rows[k].id@ != id,
        spec_find_row(rows, id) < 0 ==> spec_find_row(rows, id) == -1
            && forall|k: int| 0 <= k < rows.len() ==> rows[k].id@ != id,
    decreases rows.len(),
{
    if rows.len() > 0 {
        lemma_find_row_spec(rows.drop_first(), id);
        if rows[0].id@ != id {
            assert forall|k: int| 0 < k < rows.len() implies #[trigger] rows[k] == rows.drop_first()[k - 1] by {}
        }
    }
}

/// No row with the removed id is left.
pub proof fn lemma_removed_row_gone(rows: Seq<AccountRow>, id: Seq<char>)
    ensures
        forall|k: int| 0 <= k < rows_without(rows, id).len() ==> (#[trigger] rows_without(rows, id)[k]).id@ != id,
        spec_find_row(rows_without(rows, id), id) < 0,
    decreases rows.len(),
{
    if rows.len() > 0 {
        lemma_removed_row_gone(rows.drop_last(), id);
        let a = rows_without(rows.drop_last(), id);
        if rows.last().id@ == id {
            assert(rows_without(rows, id) =~= a);
        } else {
            assert forall|k: int| 0 <= k < rows_without(rows, id).len() implies (#[trigger] rows_without(rows, id)[k]).id@ != id by {
                if k < a.len() {
                    assert(rows_without(rows, id)[k] == a[k]);
                }
            }
        }
    }
    lemma_find_row_spec(rows_without(rows, id), id);
}

/// Removing an account never leaves it active.
pub proof fn lemma_removed_not_active(active: Option<Seq<char>>, rows: Seq<AccountRow>, id: Seq<char>)
    ensures
        active_after_removal(active, rows_without(rows, id), id) != Some(id),
{
    lemma_removed_row_gone(rows, id);
    if active == Some(id) && rows_without(rows, id).len() > 0 {
        assert(rows_without(rows, id)[0].id@ != id);
    }
}

proof fn lemma_without_update(rows: Seq<AccountRow>, i: int, row: AccountRow)
    requires
        0 <= i < rows.len(),
        rows[i].id@ == row.id@,
    ensures
        rows_without(rows.update(i, row), row.id@) == rows_without(rows, row.id@),
    decreases rows.len(),
{
    let id = row.id@;
    let u = rows.update(i, row);
    if i == rows.len() - 1 {
        assert(u.drop_last() =~= rows.drop_last());
    } else {
        lemma_without_update(rows.drop_last(), i, row);
        assert(u.drop_last() =~= rows.drop_last().update(i, row));
        assert(u.last() == rows.last());
    }
}

/// Removing an account undoes storing it: whatever the library held under
/// other ids is left as it was before the row was stored.
pub proof fn lemma_remove_undoes_upsert(rows: Seq<AccountRow>, row: AccountRow)
    ensures
        rows_without(upserted_rows(rows, row), row.id@) == rows_without(rows, row.id@),
{
    let i = spec_find_row(rows, row.id@);
    lemma_find_row_spec(rows, row.id@);
    if i >= 0 {
        lemma_without_update(rows, i, row);
    } else {
        assert(rows.push(row).drop_last() =~= rows);
    }
}

/// Makes `id` the active account, refusing an id the library does not hold.
pub fn set_active(idx: &mut AccountIndex, id: &str) -> (r: Result<(), AppError>)
    ensures
        spec_find_row(old(idx).accounts@, id@) >= 0 <==> r is Ok,
        r is Ok ==> final(idx).accounts@ == old(idx).accounts@ && opt_view(final(idx).active_id)
            == Some(id@),
        r matches Err(e) ==> e matches AppError::Account(m) && m@ == "unknown account id "@ + id@
            && final(idx).accounts@ == old(idx).accounts@ && opt_view(final(idx).active_id)
            == opt_view(old(idx).active_id),
{
    match find_row(idx, id) {
        Some(_) => {
            idx.active_id = Some(id.to_owned());
            Ok(())
        },
        None => {
            let mut m = chars_of("unknown account id ");
            push_str(&mut m, id);
            Err(AppError::Account(string_from_chars(&m)))
        },
    }
}

/// Records that `id` was switched to at `now` and makes it active.
pub fn mark_activated(idx: &mut AccountIndex, id: &str, now: Timestamp)
    ensures
        ({
            let i = spec_find_row(old(idx).accounts@, id@);
            final(idx).accounts@ == if i >= 0 {
                old(idx).accounts@.update(
                    i,
                    AccountRow { last_used_at: Some(now), ..old(idx).accounts@[i] },
                )
            } else {
                old(idx).accounts@
            }
        }),
        opt_view(final(idx).active_id) == Some(id@),
{
    if let Some(i) = find_row(idx, id) {
        let mut r = idx.accounts.remove(i);
        r.last_used_at = Some(now);
        idx.accounts.insert(i, r);
        assert(idx.accounts@ =~= old(idx).accounts@.update(
            i as int,
            AccountRow { last_used_at: Some(now), ..old(idx).accounts@[i as int] },
        ));
    }
    idx.active_id = Some(id.to_owned());
}

/// A library with accounts but no active one makes its first account
/// active; returns whether it changed anything.
pub fn ensure_active(idx: &mut AccountIndex) -> (r: bool)
    ensures
        final(idx).accounts@ == old(idx).accounts@,
        r == (old(idx).active_id is None && old(idx).accounts@.len() > 0),
        r ==> opt_view(final(idx).active_id) == Some(old(idx).accounts@[0].id@),
        !r ==> opt_view(final(idx).active_id) == opt_view(old(idx).active_id),
{
    if idx.active_id.is_none() && idx.accounts.len() > 0 {
        idx.active_id = Some(idx.accounts[0].id.clone());
        true
    } else {
        false
    }
}

} // verus!

verus! {

/// An OAuth row that lacks identity metadata older index versions did not
/// persist (subject, account id, email or subscription end).
pub open spec fn spec_needs_backfill(row: AccountRow) -> bool {
    row.auth_mode == AccountAuthMode::Oauth && (row.subject_id is None || row.account_id is None
        || row.email is None || row.subscription_active_until is None)
}

/// Whether a row should be completed from its stored credential.
pub fn row_needs_backfill(row: &AccountRow) -> (r: bool)
    ensures
        r == spec_needs_backfill(*row),
{
    row.auth_mode == AccountAuthMode::Oauth && (row.subject_id.is_none() || row.account_id.is_none()
        || row.email.is_none() || row.subscription_active_until.is_none())
}

/// `new` is `old` with a missing value filled from `fill`.
pub open spec fn filled(old: Option<String>, new: Option<String>, fill: Option<Seq<char>>) -> bool {
    match old {
        Some(o) => opt_view(new) == Some(o@),
        None => opt_view(new) == fill,
    }
}

/// `r` is `row` with only the given fields possibly changed.
pub open spec fn same_row_except_meta(r: AccountRow, row: AccountRow) -> bool {
    &&& r.id == row.id
    &&& r.label == row.label
    &&& r.plan_type == row.plan_type
    &&& r.auth_mode == row.auth_mode
    &&& r.added_at == row.added_at
    &&& r.last_used_at == row.last_used_at
    &&& r.workspace == row.workspace
}

/// Completes a row from the outcome of loading its credential: a loaded
/// credential fills the missing subject, account id, email and subscription
/// end; a missing credential or one that cannot be parsed flags the row for
/// re-authentication with `credential_missing` / `invalid_credential`; any
/// other failure is returned.
pub fn backfill_row(row: &mut AccountRow, loaded: Result<CodexAuth, AppError>) -> (r: Result<(), AppError>)
    ensures
        same_row_except_meta(*final(row), *old(row)),
        match loaded {
            Ok(a) => {
                &&& r is Ok
                &&& filled(old(row).subject_id, final(row).subject_id, spec_subject_id_from(a))
                &&& filled(old(row).account_id, final(row).account_id, match a.tokens {
                    Some(t) => opt_view(t.account_id),
                    None => None,
                })
                &&& filled(old(row).email, final(row).email, spec_email_from(a))
                &&& filled(
                    old(row).subscription_active_until,
                    final(row).subscription_active_until,
                    spec_subscription_from(a),
                )
                &&& final(row).requires_reauth == old(row).requires_reauth
                &&& final(row).last_error == old(row).last_error
            },
            Err(e) => {
                if e matches AppError::Account(m) && m@ == "credential_missing"@ {
                    &&& r is Ok
                    &&& final(row).requires_reauth
                    &&& opt_view(final(row).last_error) == Some("credential_missing"@)
                    &&& final(row).email == old(row).email
                    &&& final(row).subject_id == old(row).subject_id
                    &&& final(row).account_id == old(row).account_id
                    &&& final(row).subscription_active_until == old(row).subscription_active_until
                } else if e is InvalidCredential {
                    &&& r is Ok
                    &&& final(row).requires_reauth
                    &&& opt_view(final(row).last_error) == Some("invalid_credential"@)
                    &&& final(row).email == old(row).email
                    &&& final(row).subject_id == old(row).subject_id
                    &&& final(row).account_id == old(row).account_id
                    &&& final(row).subscription_active_until == old(row).subscription_active_until
                } else {
                    &&& r == Err::<(), AppError>(e)
                    &&& *final(row) == *old(row)
                }
            },
        },
{
    match loaded {
        Ok(auth) => {
            if row.subject_id.is_none() {
                row.subject_id = subject_id_from(&auth);
            }
            if row.account_id.is_none() {
                row.account_id = account_id_opt(&auth);
            }
            if row.email.is_none() {
                row.email = email_from(&auth);
            }
            if row.subscription_active_until.is_none() {
                row.subscription_active_until = subscription_from(&auth);
            }
            Ok(())
        },
        Err(e) => {
            let missing = match &e {
                AppError::Account(m) => {
                    let mv = chars_of(m.as_str());
                    chars_eq_str(&mv, "credential_missing")
                },
                _ => false,
            };
            if missing {
                row.requires_reauth = true;
                row.last_error = Some("credential_missing".to_owned());
                Ok(())
            } else if let AppError::InvalidCredential(_) = &e {
                row.requires_reauth = true;
                row.last_error = Some("invalid_credential".to_owned());
                Ok(())
            } else {
                Err(e)
            }
        },
    }
}

/// Refuses to install a credential that cannot log in at Unix time `now`:
/// placeholder junk, and an expired access token without a refresh token
/// (such an account is kept in the library but not switched to).
pub fn check_activatable(id: &str, auth: &CodexAuth, now: i64) -> (r: Result<(), AppError>)
    ensures
        r is Ok <==> spec_login_usability_at(*auth, now) == LoginUsability::Usable,
        r matches Err(e) ==> e matches AppError::InvalidCredential(m) && m@ == "account "@ + id@
            + " is not usable as a Codex login"@,
{
    if auth.login_usability_at(now) != LoginUsability::Usable {
        let mut m = chars_of("account ");
        push_str(&mut m, id);
        push_str(&mut m, " is not usable as a Codex login");
        Err(AppError::InvalidCredential(string_from_chars(&m)))
    } else {
        Ok(())
    }
}

/// Refuses to store a credential that is unusable at Unix time `now`.
pub fn check_storable(auth: &CodexAuth, now: i64) -> (r: Result<(), AppError>)
    ensures
        r is Ok <==> spec_login_usability_at(*auth, now) != LoginUsability::Invalid,
        r matches Err(e) ==> e matches AppError::InvalidCredential(m) && m@
            == "refusing to store an unusable credential"@,
{
    if auth.login_usability_at(now) == LoginUsability::Invalid {
        Err(AppError::InvalidCredential("refusing to store an unusable credential".to_owned()))
    } else {
        Ok(())
    }
}

/// The name of a usability verdict, as its `Debug` form prints it.
pub open spec fn usability_name(u: LoginUsability) -> Seq<char> {
    match u {
        LoginUsability::Usable => "Usable"@,
        LoginUsability::ExpiredAccess => "ExpiredAccess"@,
        LoginUsability::Invalid => "Invalid"@,
    }
}

/// A credential summary that carries no secret.
#[derive(Debug)]
pub struct RedactedAuth {
    pub auth_mode: Option<String>,
    pub account_id: Option<String>,
    pub email: Option<String>,
    pub plan_type: Option<String>,
    pub has_access_token: bool,
    pub has_refresh_token: bool,
    pub usability: String,
}

impl RedactedAuth {
    /// The summary of a credential, judged usable or not at Unix time `now`.
    pub fn of_auth_at(a: &CodexAuth, now: i64) -> (r: RedactedAuth)
        ensures
            opt_view(r.auth_mode) == opt_view(a.auth_mode),
            opt_view(r.account_id) == (match a.tokens {
                Some(t) => opt_view(t.account_id),
                None => None,
            }),
            opt_view(r.email) == spec_email_from(*a),
            opt_view(r.plan_type) == opt_view(a.plan_type),
            r.has_access_token == (a.tokens matches Some(t) && t.access_token@.len() > 0),
            r.has_refresh_token == (a.tokens matches Some(t) && t.refresh_token@.len() > 0),
            r.usability@ == usability_name(spec_login_usability_at(*a, now)),
    {
        let usability = match a.login_usability_at(now) {
            LoginUsability::Usable => "Usable",
            LoginUsability::ExpiredAccess => "ExpiredAccess",
            LoginUsability::Invalid => "Invalid",
        };
        RedactedAuth {
            auth_mode: clone_opt(&a.auth_mode),
            account_id: account_id_opt(a),
            email: email_from(a),
            plan_type: clone_opt(&a.plan_type),
            has_access_token: match &a.tokens {
                Some(t) => !t.access_token.as_str().is_empty(),
                None => false,
            },
            has_refresh_token: match &a.tokens {
                Some(t) => !t.refresh_token.as_str().is_empty(),
                None => false,
            },
            usability: usability.to_owned(),
        }
    }

    /// The summary of a credential, judged usable or not now.
    pub fn of_auth(a: &CodexAuth) -> (r: RedactedAuth)
        ensures
            exists|now: i64| r.usability@ == usability_name(spec_login_usability_at(*a, now)),
            opt_view(r.auth_mode) == opt_view(a.auth_mode),
            opt_view(r.account_id) == (match a.tokens {
                Some(t) => opt_view(t.account_id),
                None => None,
            }),
            opt_view(r.email) == spec_email_from(*a),
            opt_view(r.plan_type) == opt_view(a.plan_type),
            r.has_access_token == (a.tokens matches Some(t) && t.access_token@.len() > 0),
            r.has_refresh_token == (a.tokens matches Some(t) && t.refresh_token@.len() > 0),
    {
        let now = crate::time::now_timestamp().secs;
        let r = Self::of_auth_at(a, now);
        assert(r.usability@ == usability_name(spec_login_usability_at(*a, now)));
        r
    }
}

} // verus!
