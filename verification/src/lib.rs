//! Core logic of a small AI API gateway: request routing decisions, retry and
//! fallback, response caching keys, gateway key handling, configuration checks.

pub mod admin;
pub mod auth;
pub mod budget;
pub mod cache;
pub mod config;
pub mod error;
pub mod executor;
pub mod fallback;
pub mod fingerprint;
pub mod flow;
pub mod headers;
pub mod json;
pub mod preview;
pub mod pricing;
pub mod providers;
pub mod proxy;
pub mod ratelimit;
pub mod reload;
pub mod retry;
pub mod runtime;
pub mod security;
pub mod seed;
pub mod text;
pub mod tokens;
