//! The crate's error type and the flattened form handed to the frontend.

use vstd::prelude::*;
use crate::text::{chars_of, push_str, string_from_chars};

verus! {

/// Errors of the app. Failures that come from I/O, JSON decoding or HTTP
/// carry the text of the underlying error.
#[derive(Debug)]
pub enum AppError {
    Io(String),
    Json(String),
    Http(String),
    Network(String),
    Config(String),
    Auth(String),
    Account(String),
    InvalidCredential(String),
    Quota(String),
    NotImplemented(String),
}

/// The frontend's view of an error: its kind and its display text.
#[derive(Debug)]
pub struct ApiError {
    pub kind: String,
    pub message: String,
}

/// The kind tag and display prefix of an error, and its carried text.
pub open spec fn error_parts(e: AppError) -> (Seq<char>, Seq<char>, Seq<char>) {
    match e {
        AppError::Io(m) => ("io"@, "io"@, m@),
        AppError::Json(m) => ("json"@, "json"@, m@),
        AppError::Http(m) => ("http"@, "http"@, m@),
        AppError::Network(m) => ("network"@, "network"@, m@),
        AppError::Config(m) => ("config"@, "config"@, m@),
        AppError::Auth(m) => ("auth"@, "auth"@, m@),
        AppError::Account(m) => ("account"@, "account"@, m@),
        AppError::InvalidCredential(m) => ("invalid_credential"@, "invalid credential"@, m@),
        AppError::Quota(m) => ("quota"@, "quota"@, m@),
        AppError::NotImplemented(m) => ("not_implemented"@, "not implemented"@, m@),
    }
}

/// The display text of an error: `<prefix>: <text>`.
pub open spec fn spec_error_message(e: AppError) -> Seq<char> {
    error_parts(e).1 + ": "@ + error_parts(e).2
}

impl AppError {
    /// The display text of the error, `<prefix>: <text>` (for example
    /// `auth: missing state`).
    pub fn message(&self) -> (r: String)
        ensures
            r@ == spec_error_message(*self),
    {
        let (prefix, text): (&str, &String) = match self {
            AppError::Io(m) => ("io", m),
            AppError::Json(m) => ("json", m),
            AppError::Http(m) => ("http", m),
            AppError::Network(m) => ("network", m),
            AppError::Config(m) => ("config", m),
            AppError::Auth(m) => ("auth", m),
            AppError::Account(m) => ("account", m),
            AppError::InvalidCredential(m) => ("invalid credential", m),
            AppError::Quota(m) => ("quota", m),
            AppError::NotImplemented(m) => ("not implemented", m),
        };
        let mut out = chars_of(prefix);
        push_str(&mut out, ": ");
        push_str(&mut out, text.as_str());
        string_from_chars(&out)
    }

    /// The kind tag the frontend switches on (`io`, `json`, ..., `not_implemented`).
    pub fn kind(&self) -> (r: &'static str)
        ensures
            r@ == error_parts(*self).0,
    {
        match self {
            AppError::Io(_) => "io",
            AppError::Json(_) => "json",
            AppError::Http(_) => "http",
            AppError::Network(_) => "network",
            AppError::Config(_) => "config",
            AppError::Auth(_) => "auth",
            AppError::Account(_) => "account",
            AppError::InvalidCredential(_) => "invalid_credential",
            AppError::Quota(_) => "quota",
            AppError::NotImplemented(_) => "not_implemented",
        }
    }
}

impl ApiError {
    /// Collapses an error to its kind tag and display text.
    pub fn from_app_error(e: AppError) -> (r: ApiError)
        ensures
            r.kind@ == error_parts(e).0,
            r.message@ == spec_error_message(e),
    {
        let kind = e.kind().to_owned();
        let message = e.message();
        ApiError { kind, message }
    }
}

} // verus!
