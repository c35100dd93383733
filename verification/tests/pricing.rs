use gateway::pricing::{billable_tokens, PricingIndex, TokenUsage};

/// (provider, model, input per 1k, output per 1k, cached input per 1k)
fn catalog() -> Vec<(&'static str, &'static str, f64, f64, Option<f64>)> {
    vec![
        ("openai", "gpt-4o-mini", 0.00015, 0.0006, Some(0.000075)),
        ("openai", "gpt-4o", 0.0025, 0.01, None),
        ("anthropic", "sonnet-4-6", 0.003, 0.015, Some(0.0003)),
    ]
}

fn cost(provider: &str, model: &str, usage: TokenUsage) -> Option<f64> {
    let entries = catalog();
    let index = PricingIndex::from_keys(entries.iter().map(|e| (e.0.to_string(), e.1.to_string())).collect());
    let e = entries[index.lookup(provider, model)?];
    let (fresh, cached, completion) = billable_tokens(usage);
    let cached_rate = e.4.unwrap_or(e.2);
    let c = fresh as f64 * e.2 / 1000.0 + cached as f64 * cached_rate / 1000.0 + completion as f64 * e.3 / 1000.0;
    Some((c * 1_000_000.0).round() / 1_000_000.0)
}

#[test]
fn compute_for_gpt_4o_mini() {
    let c = cost("openai", "gpt-4o-mini", TokenUsage { prompt: 1000, completion: 500, cached: 0 }).unwrap();
    let expected = 0.00015 + 0.0003;
    assert!((c - expected).abs() < 1e-9);
}

#[test]
fn cached_input_rate_applied() {
    let c = cost("anthropic", "sonnet-4-6", TokenUsage { prompt: 1000, completion: 0, cached: 800 }).unwrap();
    let expected = 200.0 * 0.003 / 1000.0 + 800.0 * 0.0003 / 1000.0;
    assert!((c - expected).abs() < 1e-9);
}

#[test]
fn unpriced_model_has_no_cost() {
    assert!(cost("openai", "o9", TokenUsage { prompt: 1, completion: 1, cached: 0 }).is_none());
    assert!(cost("openai", "gpt-4o-2024-08-06", TokenUsage::default()).is_none());
    assert_eq!(cost("openai", "gpt-4o-20240806", TokenUsage { prompt: 1000, completion: 0, cached: 0 }), Some(0.0025));
}
