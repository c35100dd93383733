use gateway::cache::{CacheDirective, CachePolicy, CacheStatus, CachedChunk, CachedResponse};
use gateway::error::{ApiError, GatewayError};
use gateway::flow::{insert_cache_headers, relay_headers, serve_cached, FlowAction, FlowStage, ProxyFlow};
use gateway::headers::{Header, HeaderList};

const KEY: &str = "resp:openai:0123456789abcdef0123456789abcdef0123456789abcdef";

fn list(pairs: &[(&str, &str)]) -> HeaderList {
    HeaderList {
        entries: pairs.iter().map(|(k, v)| Header { name: k.to_string(), value: v.as_bytes().to_vec() }).collect(),
    }
}

fn pairs(h: &HeaderList) -> Vec<(String, String)> {
    h.entries.iter().map(|e| (e.name.clone(), String::from_utf8(e.value.clone()).unwrap())).collect()
}

fn stored(status: u16) -> CachedResponse {
    CachedResponse {
        status,
        headers: vec![
            ("content-type".to_string(), "application/json".to_string()),
            ("Content-Length".to_string(), "12".to_string()),
        ],
        chunks: vec![CachedChunk { data: b"{\"a\":".to_vec() }, CachedChunk { data: b"1}".to_vec() }],
        finished_at_ms: 1_000,
    }
}

fn policy(d: CacheDirective) -> Option<CachePolicy> {
    Some(CachePolicy { directive: d, ttl_secs: 60, cache_scope: None, allow_nondeterministic: false })
}

#[test]
fn budget_block_refuses_first() {
    let (mut f, a) = ProxyFlow::begin(&policy(CacheDirective::Default), true);
    assert!(matches!(a, FlowAction::CheckBudget));
    match f.on_budget(true) {
        FlowAction::Refuse { error, log } => {
            assert_eq!(error, ApiError::Gateway(GatewayError::RateLimited));
            assert_eq!(log.status, "gateway_error");
            assert_eq!(log.http_status, Some(429));
            assert_eq!(log.error.as_deref(), Some("budget_exceeded"));
        }
        _ => panic!("expected a refusal"),
    }
    assert_eq!(f.stage, FlowStage::Done);
}

#[test]
fn limit_refusal_keeps_its_error() {
    let (mut f, _) = ProxyFlow::begin(&None, true);
    assert!(matches!(f.on_budget(false), FlowAction::CheckLimits));
    match f.on_limits(Err(ApiError::Storage("down".into()))) {
        FlowAction::Refuse { error, log } => {
            assert_eq!(error, ApiError::Storage("down".into()));
            assert_eq!((log.status.as_str(), log.http_status), ("rate_limited", Some(429)));
        }
        _ => panic!("expected a refusal"),
    }
}

#[test]
fn hit_is_served_and_miss_is_forwarded() {
    let (mut f, _) = ProxyFlow::begin(&policy(CacheDirective::Default), true);
    f.on_budget(false);
    assert!(matches!(f.on_limits(Ok(())), FlowAction::ReadCache));
    match f.on_cache_read(Some(&stored(201)), KEY, 6_500) {
        FlowAction::ServeCached { log, status, headers, body } => {
            assert_eq!((log.status.as_str(), log.http_status, log.cached), ("success", Some(201), true));
            assert_eq!(status, 201);
            assert_eq!(body, b"{\"a\":1}".to_vec());
            assert_eq!(
                pairs(&headers),
                vec![
                    ("content-type".to_string(), "application/json".to_string()),
                    ("x-gateway-cache-status".to_string(), "hit".to_string()),
                    ("x-gateway-cache-key".to_string(), KEY[..48].to_string()),
                    ("x-gateway-cache-age".to_string(), "5".to_string()),
                ]
            );
        }
        _ => panic!("expected a cached answer"),
    }
    assert_eq!(f.cache_status, CacheStatus::Hit);

    let (mut f, _) = ProxyFlow::begin(&policy(CacheDirective::Default), true);
    f.on_budget(false);
    f.on_limits(Ok(()));
    assert!(matches!(f.on_cache_read(None, KEY, 0), FlowAction::Forward));
    match f.on_forwarded(Ok((200, list(&[("content-type", "text/plain")]))), 3, Some("anthropic".into()), KEY) {
        FlowAction::Relay { write_cache, status, headers, request_id } => {
            assert!(write_cache);
            assert_eq!(status, 200);
            assert_eq!(request_id.len(), 36);
            assert_eq!(
                pairs(&headers),
                vec![
                    ("content-type".to_string(), "text/plain".to_string()),
                    ("x-gateway-cache-status".to_string(), "miss".to_string()),
                    ("x-gateway-cache-key".to_string(), KEY[..48].to_string()),
                    ("x-gateway-request-id".to_string(), request_id.clone()),
                ]
            );
        }
        _ => panic!("expected a relay"),
    }
    match f.on_relay_end(200, false, true) {
        FlowAction::Complete { log, store_cache, account } => {
            assert_eq!(log.status, "success");
            assert_eq!(log.retry_count, 2);
            assert_eq!(log.fallback_used.as_deref(), Some("anthropic"));
            assert!(store_cache && account);
        }
        _ => panic!("expected completion"),
    }
}

#[test]
fn only_if_cached_miss_never_forwards() {
    let (mut f, _) = ProxyFlow::begin(&policy(CacheDirective::OnlyIfCached), true);
    f.on_budget(false);
    f.on_limits(Ok(()));
    match f.on_cache_read(None, KEY, 0) {
        FlowAction::Refuse { error, log } => {
            assert_eq!(error, ApiError::Gateway(GatewayError::UpstreamTimeout));
            assert_eq!(log.http_status, Some(504));
            assert_eq!(log.error.as_deref(), Some("cache miss with X-Gateway-Cache: only"));
        }
        _ => panic!("expected a refusal"),
    }
}

#[test]
fn bypass_skips_the_cache_and_never_stores() {
    let (mut f, _) = ProxyFlow::begin(&policy(CacheDirective::Bypass), true);
    assert_eq!(f.cache_status, CacheStatus::Bypass);
    f.on_budget(false);
    assert!(matches!(f.on_limits(Ok(())), FlowAction::Forward));
    assert!(matches!(f.on_forwarded(Ok((200, HeaderList::new())), 1, None, KEY), FlowAction::Relay { write_cache: false, .. }));
}

#[test]
fn forward_errors_and_broken_streams() {
    let (mut f, _) = ProxyFlow::begin(&None, false);
    f.on_budget(false);
    f.on_limits(Ok(()));
    match f.on_forwarded(Err(GatewayError::UpstreamTimeout), 4, Some("backup".into()), KEY) {
        FlowAction::Refuse { log, .. } => {
            assert_eq!(log.status, "timeout");
            assert_eq!(log.retry_count, 3);
            assert_eq!(log.fallback_used.as_deref(), Some("backup"));
            assert_eq!(log.http_status, Some(504));
            assert_eq!(log.error.as_deref(), Some("upstream timeout"));
        }
        _ => panic!("expected a refusal"),
    }
    let (mut f, _) = ProxyFlow::begin(&policy(CacheDirective::Refresh), true);
    f.on_budget(false);
    f.on_limits(Ok(()));
    assert!(matches!(f.on_forwarded(Ok((503, HeaderList::new())), 0, None, KEY), FlowAction::Relay { write_cache: false, .. }));
    match f.on_relay_end(503, true, true) {
        FlowAction::Complete { log, store_cache, account } => {
            assert_eq!(log.status, "upstream_error");
            assert!(!store_cache && !account);
        }
        _ => panic!("expected completion"),
    }
}

#[test]
fn error_messages() {
    assert_eq!(GatewayError::BadRequest("x".into()).message(), "invalid request: x");
    assert_eq!(GatewayError::Internal("boom".into()).message(), "internal: boom");
    assert_eq!(GatewayError::Storage("db".into()).message(), "db");
    assert_eq!(
        GatewayError::UpstreamError { status: 502, body: Some("a\"b".into()) }.message(),
        "upstream error: status=502, body=Some(\"a\\\"b\")"
    );
    assert_eq!(ApiError::Unauthorized.message(), "unauthorized");
    assert_eq!(ApiError::Gateway(GatewayError::NotFound).message(), "not found");
}

#[test]
fn cache_headers_replace_earlier_values() {
    let mut h = list(&[("x-gateway-cache-status", "stale"), ("a", "1")]);
    insert_cache_headers(&mut h, CacheStatus::Bypass, "resp:x:y", Some(0));
    assert_eq!(
        pairs(&h),
        vec![
            ("x-gateway-cache-status".to_string(), "bypass".to_string()),
            ("a".to_string(), "1".to_string()),
            ("x-gateway-cache-key".to_string(), "resp:x:y".to_string()),
            ("x-gateway-cache-age".to_string(), "0".to_string()),
        ]
    );
}

#[test]
fn refused_stored_header_serves_empty_answer() {
    let mut c = stored(200);
    c.headers.push(("bad name".to_string(), "v".to_string()));
    let (status, headers, body) = serve_cached(&c, CacheStatus::Hit, "k", 1_000);
    assert_eq!(status, 200);
    assert!(body.is_empty());
    assert_eq!(
        pairs(&headers),
        vec![
            ("x-gateway-cache-status".to_string(), "hit".to_string()),
            ("x-gateway-cache-key".to_string(), "k".to_string()),
            ("x-gateway-cache-age".to_string(), "0".to_string()),
        ]
    );
}

#[test]
fn stored_names_are_normalised_and_odd_status_replays_as_200() {
    let mut c = stored(42);
    c.headers = vec![("X-Custom".to_string(), "v".to_string())];
    let (status, headers, _) = serve_cached(&c, CacheStatus::Hit, "k", 3_000);
    assert_eq!(status, 200);
    assert_eq!(pairs(&headers)[0], ("x-custom".to_string(), "v".to_string()));
    assert_eq!(pairs(&headers)[3], ("x-gateway-cache-age".to_string(), "2".to_string()));
}

#[test]
fn relayed_headers_get_request_id() {
    let h = relay_headers(&list(&[("x-a", "1")]), CacheStatus::Disabled, "k", "0190c0de-0000-7000-8000-000000000000");
    assert_eq!(
        pairs(&h),
        vec![
            ("x-a".to_string(), "1".to_string()),
            ("x-gateway-cache-status".to_string(), "disabled".to_string()),
            ("x-gateway-cache-key".to_string(), "k".to_string()),
            ("x-gateway-request-id".to_string(), "0190c0de-0000-7000-8000-000000000000".to_string()),
        ]
    );
}
