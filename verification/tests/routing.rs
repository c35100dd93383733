use gateway::config::{RouteCacheConfig, RouteConfig, RouteMatch, RouteRetryConfig, RouteTarget};
use gateway::error::{ApiError, GatewayError};
use gateway::executor::{outcome_label, ChainAction, ChainEnd, ChainRun};
use gateway::fallback::ProviderChain;
use gateway::retry::{backoff_cap_ms, is_retryable_status, matches_fallback_trigger, AttemptOutcome};

fn target(p: &str, triggers: &[&str]) -> RouteTarget {
    RouteTarget { provider: p.into(), model: None, trigger: triggers.iter().map(|t| t.to_string()).collect() }
}

fn route(fallbacks: Vec<RouteTarget>, max_attempts: u32) -> RouteConfig {
    RouteConfig {
        match_: RouteMatch { namespace: Some("chat".into()), model_prefix: None },
        primary: target("openai", &[]),
        cache: RouteCacheConfig::default(),
        retry: RouteRetryConfig { max_attempts, initial_backoff_ms: 100 },
        fallbacks,
    }
}

#[test]
fn outcomes_classify_statuses() {
    assert_eq!(AttemptOutcome::from_status(200), AttemptOutcome::Success);
    assert_eq!(AttemptOutcome::from_status(503), AttemptOutcome::RetryableStatus(503));
    assert_eq!(AttemptOutcome::from_status(404), AttemptOutcome::NonRetryable(404));
    assert_eq!(AttemptOutcome::from_error(&GatewayError::UpstreamTimeout), AttemptOutcome::Timeout);
    assert!(is_retryable_status(429));
    assert!(!is_retryable_status(400));
    assert!(AttemptOutcome::RetryableNetwork.is_retryable());
    assert!(!AttemptOutcome::NonRetryable(400).is_retryable());
    assert_eq!(outcome_label(AttemptOutcome::Timeout), "timeout");
}

#[test]
fn backoff_doubles_from_initial() {
    assert_eq!(backoff_cap_ms(100, 0), 100);
    assert_eq!(backoff_cap_ms(100, 1), 200);
    assert_eq!(backoff_cap_ms(100, 3), 800);
}

#[test]
fn triggers_match_outcomes() {
    let t = vec!["upstream_5xx".to_string(), "timeout".to_string()];
    assert!(matches_fallback_trigger(AttemptOutcome::RetryableStatus(502), &t));
    assert!(matches_fallback_trigger(AttemptOutcome::Timeout, &t));
    assert!(!matches_fallback_trigger(AttemptOutcome::RetryableStatus(429), &t));
    assert!(matches_fallback_trigger(AttemptOutcome::RetryableStatus(429), &["Rate_Limited".to_string()]));
}

#[test]
fn chain_retries_then_falls_back_then_keeps_response() {
    let chain = ProviderChain::from_route(&route(vec![target("anthropic", &["upstream_5xx"])], 2));
    assert_eq!(chain.entries.len(), 2);
    let (mut run, action) = ChainRun::begin(&chain);
    assert_eq!(action, ChainAction::Forward { entry: 0 });
    let s = run.on_result(&chain, AttemptOutcome::RetryableStatus(503), true);
    assert_eq!(s.action, ChainAction::Retry { entry: 0, cap_ms: 100 });
    let s = run.on_result(&chain, AttemptOutcome::RetryableStatus(503), true);
    assert!(s.keep_current);
    assert_eq!(s.action, ChainAction::Forward { entry: 1 });
    assert_eq!(run.fallback_used, Some(1));
    let s = run.on_result(&chain, AttemptOutcome::RetryableStatus(503), true);
    assert_eq!(s.action, ChainAction::Retry { entry: 1, cap_ms: 100 });
    let s = run.on_result(&chain, AttemptOutcome::RetryableStatus(503), true);
    assert_eq!(s.action, ChainAction::Finish(ChainEnd::KeptResponse));
    assert!(run.finished);
}

#[test]
fn chain_stops_on_success_and_on_non_retryable() {
    let chain = ProviderChain::primary_only("openai");
    assert_eq!(chain.retry.max_attempts, 3);
    let (mut run, _) = ChainRun::begin(&chain);
    let s = run.on_result(&chain, AttemptOutcome::Success, true);
    assert_eq!(s.action, ChainAction::Finish(ChainEnd::Current));
    let (mut run, _) = ChainRun::begin(&chain);
    let s = run.on_result(&chain, AttemptOutcome::NonRetryable(400), true);
    assert_eq!(s.action, ChainAction::Finish(ChainEnd::Current));
}

#[test]
fn fallback_needs_a_matching_trigger() {
    let chain = ProviderChain::from_route(&route(vec![target("anthropic", &["rate_limited"])], 1));
    let (mut run, _) = ChainRun::begin(&chain);
    let s = run.on_result(&chain, AttemptOutcome::RetryableNetwork, false);
    assert_eq!(s.action, ChainAction::Finish(ChainEnd::KeptError));
    assert_eq!(run.fallback_used, None);
}

#[test]
fn empty_chain_finishes_at_once() {
    let chain = ProviderChain { entries: vec![], retry: RouteRetryConfig::default() };
    let (run, action) = ChainRun::begin(&chain);
    assert!(run.finished);
    assert_eq!(action, ChainAction::Finish(ChainEnd::Empty));
}

#[test]
fn error_statuses_and_classes() {
    assert_eq!(GatewayError::RateLimited.status_code(), 429);
    assert_eq!(GatewayError::RateLimited.classification(), "rate_limited");
    assert_eq!(GatewayError::UpstreamError { status: 418, body: None }.status_code(), 418);
    assert_eq!(GatewayError::Storage("x".into()).status_code(), 500);
    assert_eq!(ApiError::Unauthorized.status_and_code(), (401, "unauthorized"));
    assert_eq!(ApiError::Gateway(GatewayError::UpstreamError { status: 42, body: None }).status_and_code(), (500, "upstream_error"));
}

#[test]
fn unretried_5xx_falls_back_when_triggered() {
    let chain = ProviderChain::from_route(&route(vec![target("anthropic", &["upstream_5xx"])], 3));
    let (mut run, _) = ChainRun::begin(&chain);
    let s = run.on_result(&chain, AttemptOutcome::from_status(501), true);
    assert!(s.keep_current);
    assert_eq!(s.action, ChainAction::Forward { entry: 1 });
    assert_eq!(run.fallback_used, Some(1));
    let s = run.on_result(&chain, AttemptOutcome::from_status(501), true);
    assert_eq!(s.action, ChainAction::Finish(ChainEnd::Current));
}

#[test]
fn unretried_5xx_without_matching_trigger_ends_with_it() {
    let chain = ProviderChain::from_route(&route(vec![target("anthropic", &["timeout"])], 3));
    let (mut run, _) = ChainRun::begin(&chain);
    let s = run.on_result(&chain, AttemptOutcome::from_status(501), true);
    assert!(!s.keep_current);
    assert_eq!(s.action, ChainAction::Finish(ChainEnd::Current));
    assert_eq!(run.fallback_used, None);
}

#[test]
fn empty_chain_has_no_fallback() {
    let chain = ProviderChain { entries: vec![], retry: RouteRetryConfig::default() };
    let (run, _) = ChainRun::begin(&chain);
    assert_eq!(run.fallback_used, None);
}
