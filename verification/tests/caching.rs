use gateway::cache::{
    cache_age_secs, cache_key, headers_to_store, miss_is_final, read_plan, replay_headers, route_policy,
    replay_status, should_write, shown_key, CacheDirective, CachePolicy, CacheStatus,
};
use gateway::config::RouteCacheConfig;
use gateway::headers::{Header, HeaderList};

fn headers(pairs: &[(&str, &str)]) -> HeaderList {
    HeaderList {
        entries: pairs
            .iter()
            .map(|(k, v)| Header { name: k.to_string(), value: v.as_bytes().to_vec() })
            .collect(),
    }
}

#[test]
fn policy_reads_client_headers() {
    let h = headers(&[
        ("x-gateway-cache", "BYPASS"),
        ("x-gateway-cache-ttl", "60"),
        ("x-gateway-cache-scope", "tenant-1"),
        ("x-gateway-cache-force", " Yes "),
    ]);
    let p = CachePolicy::from_headers(&h, true, 3600).unwrap();
    assert_eq!(p.directive, CacheDirective::Bypass);
    assert_eq!(p.ttl_secs, 60);
    assert_eq!(p.cache_scope.as_deref(), Some("tenant-1"));
    assert!(p.allow_nondeterministic);
}

#[test]
fn policy_defaults_and_disabled_route() {
    let h = headers(&[("x-gateway-cache-ttl", "soon"), ("x-gateway-cache", "only-if-cached")]);
    let p = CachePolicy::from_headers(&h, true, 3600).unwrap();
    assert_eq!(p.directive, CacheDirective::OnlyIfCached);
    assert_eq!(p.ttl_secs, 3600);
    assert_eq!(p.cache_scope, None);
    assert!(!p.allow_nondeterministic);
    assert!(CachePolicy::from_headers(&h, false, 3600).is_none());
    let only = headers(&[("x-gateway-cache", "only")]);
    assert_eq!(CachePolicy::from_headers(&only, true, 1).unwrap().directive, CacheDirective::OnlyIfCached);
    let odd = headers(&[("x-gateway-cache", "sometimes")]);
    assert_eq!(CachePolicy::from_headers(&odd, true, 1).unwrap().directive, CacheDirective::Default);
}

#[test]
fn status_header_values() {
    assert_eq!(CacheStatus::Hit.as_header(), "hit");
    assert_eq!(CacheStatus::Miss.as_header(), "miss");
    assert_eq!(CacheStatus::Bypass.as_header(), "bypass");
    assert_eq!(CacheStatus::Refresh.as_header(), "refresh");
    assert_eq!(CacheStatus::Disabled.as_header(), "disabled");
}

fn policy(d: CacheDirective) -> Option<CachePolicy> {
    Some(CachePolicy { directive: d, ttl_secs: 1, cache_scope: None, allow_nondeterministic: false })
}

#[test]
fn read_plan_and_misses() {
    assert_eq!(read_plan(&None), Some(CacheStatus::Disabled));
    assert_eq!(read_plan(&policy(CacheDirective::Bypass)), Some(CacheStatus::Bypass));
    assert_eq!(read_plan(&policy(CacheDirective::Refresh)), Some(CacheStatus::Refresh));
    assert_eq!(read_plan(&policy(CacheDirective::Default)), None);
    assert_eq!(read_plan(&policy(CacheDirective::OnlyIfCached)), None);
    assert!(miss_is_final(&policy(CacheDirective::OnlyIfCached)));
    assert!(!miss_is_final(&policy(CacheDirective::Default)));
    assert!(!miss_is_final(&None));
}

#[test]
fn writes_only_fresh_successes() {
    assert!(should_write(CacheStatus::Miss, 200, true, true));
    assert!(should_write(CacheStatus::Refresh, 299, true, true));
    assert!(!should_write(CacheStatus::Hit, 200, true, true));
    assert!(!should_write(CacheStatus::Miss, 500, true, true));
    assert!(!should_write(CacheStatus::Miss, 200, false, true));
    assert!(!should_write(CacheStatus::Bypass, 200, true, true));
}

#[test]
fn key_and_shown_key() {
    let fp = "0123456789abcdef".repeat(4);
    let k = cache_key("openai", &fp);
    assert_eq!(k, format!("resp:openai:{fp}"));
    assert_eq!(shown_key(&k), k[..48].to_string());
    assert_eq!(shown_key("resp:x"), "resp:x");
}

#[test]
fn age_and_replay() {
    assert_eq!(cache_age_secs(10_500, 1_000), 9);
    assert_eq!(cache_age_secs(1_000, 5_000), 0);
    assert_eq!(replay_status(404), 404);
    assert_eq!(replay_status(42), 200);
    let hs = vec![
        ("Content-Length".to_string(), "10".to_string()),
        ("content-type".to_string(), "text/plain".to_string()),
        ("Transfer-Encoding".to_string(), "chunked".to_string()),
    ];
    assert_eq!(replay_headers(&hs), vec![("content-type".to_string(), "text/plain".to_string())]);
}

#[test]
fn stored_headers_are_text_only() {
    let mut h = headers(&[("content-type", "application/json")]);
    h.entries.push(Header { name: "x-bin".into(), value: vec![0xff, 0x01] });
    h.entries.push(Header { name: "x-id".into(), value: b"7".to_vec() });
    assert_eq!(
        headers_to_store(&h),
        vec![
            ("content-type".to_string(), "application/json".to_string()),
            ("x-id".to_string(), "7".to_string())
        ]
    );
}

#[test]
fn route_setting_allows_nondeterministic_bodies() {
    let route = RouteCacheConfig { enabled: true, ttl: 120, allow_nondeterministic: true };
    let p = route_policy(&headers(&[]), &route).unwrap();
    assert!(p.allow_nondeterministic);
    assert_eq!(p.ttl_secs, 120);
    let plain = RouteCacheConfig { enabled: true, ttl: 120, allow_nondeterministic: false };
    assert!(!route_policy(&headers(&[]), &plain).unwrap().allow_nondeterministic);
    assert!(route_policy(&headers(&[("x-gateway-cache-force", "true")]), &plain).unwrap().allow_nondeterministic);
    let off = RouteCacheConfig { enabled: false, ttl: 120, allow_nondeterministic: true };
    assert!(route_policy(&headers(&[]), &off).is_none());
}
