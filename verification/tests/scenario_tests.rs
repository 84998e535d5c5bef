use ban_analyzer::detectors::ip_cost::{
    Config as CostConfig, RequestPatternConfig, RequestsFromIPCost,
};
use ban_analyzer::detectors::ip_counter::{Config, RequestsFromIPCounter};
use ban_analyzer::model::{BanRequest, BanTarget, Body, Request};
use ban_analyzer::rules::BanRule;

/// The cascade the end-to-end scenarios use:
/// limit 3 -> 1s ban, 2s reset; 2 -> 3s, 6s; 1 -> 4s, 8s.
fn scenario_rules() -> Vec<BanRule> {
    vec![
        BanRule { limit: 3, ban_duration_ms: 1_000, reset_duration_ms: 2_000 },
        BanRule { limit: 2, ban_duration_ms: 3_000, reset_duration_ms: 6_000 },
        BanRule { limit: 1, ban_duration_ms: 4_000, reset_duration_ms: 8_000 },
    ]
}

fn counter() -> RequestsFromIPCounter {
    RequestsFromIPCounter::new(Config {
        limits: scenario_rules(),
        ban_description: "too many requests".to_string(),
    })
    .ok()
    .expect("counter detector")
}

/// A fixed base instant plus an offset in seconds, rendered RFC 3339.
fn at(offset_secs: u32) -> String {
    let secs = offset_secs % 60;
    let two = |v: u32| {
        if v < 10 {
            format!("0{}", v)
        } else {
            format!("{}", v)
        }
    };
    format!("2024-05-01T10:00:{}Z", two(secs))
}

fn req(ip: &str, offset_secs: u32) -> Request {
    Request {
        timestamp: at(offset_secs),
        remote_ip: ip.to_string(),
        host: "example.test".to_string(),
        method: "GET".to_string(),
        path: "/".to_string(),
        headers: Vec::new(),
        body: Body::Skipped,
    }
}

fn ban(ip: &str, ttl: u32) -> BanRequest {
    BanRequest {
        target: BanTarget { ip: Some(ip.to_string()), user_agent: None },
        reason: "too many requests".to_string(),
        ttl,
    }
}

#[test]
fn threshold_bans_on_the_final_request() {
    let mut v = counter();
    let mut results = vec![];
    for r in vec![req("1.1.1.1", 0), req("1.1.1.1", 0), req("1.1.1.1", 0)] {
        results.push(v.validate(r).ok().unwrap());
    }
    assert_eq!(results, vec![None, None, Some(ban("1.1.1.1", 1))]);
}

#[test]
fn sparse_requests_never_ban() {
    let mut v = counter();
    let mut results = vec![];
    for r in vec![
        req("1.1.1.1", 0),
        req("1.1.1.1", 1),
        req("1.1.1.1", 2),
        req("1.1.1.1", 3),
        req("1.1.1.1", 4),
    ] {
        results.push(v.validate(r).ok().unwrap());
    }
    assert_eq!(results, vec![None, None, None, None, None]);
}

#[test]
fn targets_are_isolated() {
    let mut v = counter();
    let mut results = vec![];
    for r in vec![
        req("1.1.1.1", 0),
        req("2.2.2.2", 0),
        req("3.3.3.3", 0),
        req("3.3.3.3", 0),
        req("3.3.3.3", 0),
        req("1.1.1.1", 0),
        req("1.1.1.1", 0),
    ] {
        results.push(v.validate(r).ok().unwrap());
    }
    assert_eq!(
        results,
        vec![None, None, None, None, Some(ban("3.3.3.3", 1)), None, Some(ban("1.1.1.1", 1))]
    );
}

#[test]
fn escalation_walks_the_tiers_and_sticks_at_the_last() {
    let mut v = counter();
    let mut results = vec![];
    for _ in 0..7 {
        results.push(v.validate(req("1.1.1.1", 0)).ok().unwrap());
    }
    assert_eq!(
        results,
        vec![
            None,
            None,
            Some(ban("1.1.1.1", 1)),
            None,
            Some(ban("1.1.1.1", 3)),
            Some(ban("1.1.1.1", 4)),
            Some(ban("1.1.1.1", 4)),
        ]
    );
}

#[test]
fn reset_restarts_at_the_entry_tier() {
    let mut v = counter();
    let mut results = vec![];
    for r in vec![
        req("1.1.1.1", 0),
        req("1.1.1.1", 0),
        req("1.1.1.1", 0),
        req("1.1.1.1", 2),
        req("1.1.1.1", 2),
        req("1.1.1.1", 2),
    ] {
        results.push(v.validate(r).ok().unwrap());
    }
    assert_eq!(
        results,
        vec![None, None, Some(ban("1.1.1.1", 1)), None, None, Some(ban("1.1.1.1", 1))]
    );
}

#[test]
fn cost_patterns_weigh_requests() {
    let cost_detector = || {
        RequestsFromIPCost::new(CostConfig {
            limits: vec![
                BanRule { limit: 30, ban_duration_ms: 1_000, reset_duration_ms: 2_000 },
                BanRule { limit: 20, ban_duration_ms: 3_000, reset_duration_ms: 6_000 },
                BanRule { limit: 10, ban_duration_ms: 4_000, reset_duration_ms: 8_000 },
            ],
            patterns: vec![
                RequestPatternConfig {
                    method: Some("POST".to_string()),
                    path_regex: r"/cost/1".to_string(),
                    body_regex: None,
                    cost: 10,
                },
            ],
            ban_description: "too many requests".to_string(),
            default_cost: 1,
        })
        .ok()
        .expect("cost detector")
    };
    let post = |offset: u32| Request {
        timestamp: at(offset),
        remote_ip: "1.1.1.1".to_string(),
        host: "example.test".to_string(),
        method: "POST".to_string(),
        path: "/cost/1".to_string(),
        headers: Vec::new(),
        body: Body::Skipped,
    };
    let get = |offset: u32| Request {
        timestamp: at(offset),
        remote_ip: "1.1.1.1".to_string(),
        host: "example.test".to_string(),
        method: "GET".to_string(),
        path: "/cost/1".to_string(),
        headers: Vec::new(),
        body: Body::Skipped,
    };

    // three weighted posts cross the threshold on the third
    let mut v = cost_detector();
    let mut results = vec![];
    for _ in 0..3 {
        results.push(v.validate(post(0)).ok().unwrap());
    }
    assert_eq!(results, vec![None, None, Some(ban("1.1.1.1", 1))]);

    // the same three as plain gets cost one each and stay silent
    let mut v2 = cost_detector();
    let mut results2 = vec![];
    for _ in 0..3 {
        results2.push(v2.validate(get(0)).ok().unwrap());
    }
    assert_eq!(results2, vec![None, None, None]);
}
