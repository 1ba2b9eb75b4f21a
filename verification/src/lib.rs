//! Verified core of a Windows tray companion for the Codex CLI: price book and
//! cost engine, session-log parsing, credential rules, account library
//! bookkeeping, OAuth callback parsing and on-disk path layout.

pub mod text;
pub mod pricing;
pub mod session;
pub mod paths;
pub mod json;
pub mod codec;
pub mod auth;
pub mod error;
pub mod oauth;
pub mod time;
pub mod account;
pub mod cost;
pub mod quota;
pub mod tray_icon;
pub mod crashlog;
