use ggok::account::{account_fresh, merge_account, pick_bearer, proxy_base, usage_error, usage_urls};
use ggok::parse::FieldVal;

fn fv(v: &serde_json::Value) -> FieldVal {
    match v {
        serde_json::Value::Null => FieldVal::Null,
        serde_json::Value::Bool(b) => FieldVal::Bool(*b),
        serde_json::Value::Number(n) => {
            if let Some(u) = n.as_u64() {
                FieldVal::UInt(u)
            } else if let Some(i) = n.as_i64() {
                FieldVal::NegInt(i)
            } else {
                FieldVal::Float(n.to_string())
            }
        }
        serde_json::Value::String(s) => FieldVal::Str(s.clone()),
        serde_json::Value::Array(a) => FieldVal::Array(a.iter().map(fv).collect()),
        serde_json::Value::Object(o) => FieldVal::Object(o.iter().map(|(k, v)| (k.clone(), fv(v))).collect()),
    }
}

fn json(text: &str) -> FieldVal {
    let v: serde_json::Value = serde_json::from_str(text).unwrap();
    fv(&v)
}

#[test]
fn merges_profile_and_credits() {
    let profile = json(r#"{"subscriptionTier":"GROK_PRO","email":"alice@example.com"}"#);
    let credits = json(
        r#"{"config":{"creditUsagePercent":42.5,"currentPeriod":{"type":"BILLING_PERIOD_WEEKLY","start":"2024-01-01"},
            "billingPeriodEnd":"2024-01-08","productUsage":[{"product":"chat","usagePercent":"10"},{"usagePercent":3}]}}"#,
    );
    let v = merge_account(Some(&profile), Some(&credits));
    assert!(v.ok);
    assert_eq!(v.error, None);
    assert_eq!(v.tier.as_deref(), Some("GROK_PRO"));
    assert_eq!(v.tier_label.as_deref(), Some("SuperGrok"));
    assert_eq!(v.email.as_deref(), Some("a***@example.com"));
    assert_eq!(v.period.as_deref(), Some("weekly"));
    assert_eq!(v.used_percent.as_deref(), Some("42.5"));
    assert_eq!(v.period_start.as_deref(), Some("2024-01-01"));
    assert_eq!(v.resets_at.as_deref(), Some("2024-01-08"));
    assert_eq!(
        v.products,
        vec![("chat".to_string(), Some("10".to_string())), ("product".to_string(), Some("3".to_string()))]
    );
}

#[test]
fn merge_without_replies_is_an_error() {
    let v = merge_account(None, None);
    assert!(!v.ok);
    assert_eq!(v.error.as_deref(), Some("couldn't load usage"));
    assert!(v.products.is_empty());
    let credits = json(r#"{"billingPeriodStart":"s","billingPeriodEnd":"e"}"#);
    let v = merge_account(None, Some(&credits));
    assert!(v.ok);
    assert_eq!(v.tier, None);
    assert_eq!(v.period, None);
    assert_eq!(v.period_start.as_deref(), Some("s"));
    assert_eq!(v.resets_at.as_deref(), Some("e"));
}

#[test]
fn bearer_prefers_env_then_live_key() {
    let auth = json(
        r#"{"a":{"key":"old","expires_at":"2000-01-01T00:00:00Z"},"b":{"key":" live "},"c":{"key":"later"}}"#,
    );
    assert_eq!(pick_bearer(Some("  env-key "), Some(&auth), 1_700_000_000).as_deref(), Some("env-key"));
    assert_eq!(pick_bearer(Some("   "), Some(&auth), 1_700_000_000).as_deref(), Some("live"));
    let expired = json(r#"{"a":{"key":"k1","expires_at":"2000-01-01T00:00:00Z"},"b":{"key":"k2","expires_at":"2001-01-01T00:00:00Z"}}"#);
    assert_eq!(pick_bearer(None, Some(&expired), 1_700_000_000).as_deref(), Some("k2"));
    assert_eq!(pick_bearer(None, Some(&expired), 0).as_deref(), Some("k1"));
    assert_eq!(pick_bearer(None, None, 0), None);
    assert_eq!(pick_bearer(None, Some(&json(r#"{"a":{"key":""}}"#)), 0), None);
}

#[test]
fn usage_requests_and_errors() {
    assert_eq!(proxy_base(None), "https://cli-chat-proxy.grok.com/v1");
    assert_eq!(proxy_base(Some("  ")), "https://cli-chat-proxy.grok.com/v1");
    assert_eq!(proxy_base(Some(" https://p.example/api// ")), "https://p.example/api");
    let (u, b) = usage_urls("https://p.example");
    assert_eq!(u, "https://p.example/user?include=subscription");
    assert_eq!(b, "https://p.example/billing?format=credits");
    assert_eq!(usage_error("curl: (22) The requested URL returned error: 401"), "auth expired");
    assert_eq!(usage_error("  "), "couldn't load usage");
    assert_eq!(usage_error(" boom "), "boom");
    let long = "x".repeat(200);
    assert_eq!(usage_error(&long), format!("{}…", "x".repeat(160)));
    assert!(account_fresh(Some(60_000), true));
    assert!(!account_fresh(Some(60_001), true));
    assert!(!account_fresh(Some(15_001), false));
    assert!(!account_fresh(None, true));
}
