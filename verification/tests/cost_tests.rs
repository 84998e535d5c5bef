use ban_analyzer::detectors::ip_cost::{Config, RequestPatternConfig, RequestsFromIPCost};
use ban_analyzer::model::{BanRequest, BanTarget, Body, Request};
use ban_analyzer::rules::BanRule;
use chrono::{Duration, Utc};

/// The cascade used across the cost tests:
/// cost 30 -> 1s ban, 2s reset; 20 -> 3s ban, 6s reset; 10 -> 4s ban, 8s reset.
fn default_validator() -> RequestsFromIPCost {
    RequestsFromIPCost::new(Config {
        limits: vec![
            BanRule { limit: 30, ban_duration_ms: 1_000, reset_duration_ms: 2_000 },
            BanRule { limit: 20, ban_duration_ms: 3_000, reset_duration_ms: 6_000 },
            BanRule { limit: 10, ban_duration_ms: 4_000, reset_duration_ms: 8_000 },
        ],
        patterns: vec![
            pattern(Some("GET"), r"/cost/1.*", Some(r".*"), 1),
            pattern(Some("GET"), r"/cost/2.*", Some(r".*"), 2),
            pattern(Some("POST"), r"/cost/1.*", Some(r".*"), 10),
            pattern(Some("POST"), r"/cost/2.*", Some(r".*"), 20),
            pattern(Some("POST"), r"/123", Some(r"some payload"), 15),
            pattern(Some("POST"), r"/123", Some(r"big payload"), 29),
            pattern(Some("POST"), r".*", Some(r".*"), 5),
        ],
        ban_description: "".to_string(),
        default_cost: 0,
    })
    .ok()
    .expect("cost detector")
}

fn pattern(
    method: Option<&str>,
    path_regex: &str,
    body_regex: Option<&str>,
    cost: u64,
) -> RequestPatternConfig {
    RequestPatternConfig {
        method: method.map(|m| m.to_string()),
        path_regex: path_regex.to_string(),
        body_regex: body_regex.map(|b| b.to_string()),
        cost,
    }
}

fn base_req(ip: &str, method: &str, path: &str, body: &str, wait_secs: i64) -> Request {
    Request {
        timestamp: (Utc::now() + Duration::seconds(wait_secs)).to_string(),
        remote_ip: ip.to_string(),
        host: "".to_string(),
        method: method.to_string().to_uppercase(),
        path: path.to_string(),
        headers: Vec::new(),
        body: Body::Original(body.to_string()),
    }
}

fn ip_ban(ip: &str, ttl: u32) -> BanRequest {
    BanRequest {
        target: BanTarget { ip: Some(ip.to_string()), user_agent: None },
        reason: "".to_string(),
        ttl,
    }
}

#[test]
fn choose_correct_pattern() {
    let mut v = default_validator();
    let input = vec![
        base_req("1.1.1.1", "POST", "/unknown_pattern/1", "", 0),
        base_req("1.1.1.1", "POST", "/unknown_pattern/2", "", 0),
        base_req("1.1.1.1", "POST", "/unknown_pattern/3", "", 0),
        base_req("1.1.1.1", "POST", "/aaaaaaa", "", 0),
        base_req("1.1.1.1", "POST", "/bbbbb/2", "", 0),
        base_req("1.1.1.1", "POST", "/unknown_pattern/2&123", "", 0),
    ];
    let mut results = vec![];
    for req in input {
        results.push(v.validate(req).ok().unwrap());
    }
    assert_eq!(results, vec![None, None, None, None, None, Some(ip_ban("1.1.1.1", 1))]);
}

#[test]
fn exceed_cost_leads_to_ban() {
    let mut v = default_validator();
    let input = vec![
        base_req("1.1.1.1", "POST", "/cost/1", "", 0),
        base_req("1.1.1.1", "POST", "/cost/1", "", 0),
        base_req("1.1.1.1", "POST", "/cost/1", "", 0),
    ];
    let mut results = vec![];
    for req in input {
        results.push(v.validate(req).ok().unwrap());
    }
    assert_eq!(results.pop().unwrap(), Some(ip_ban("1.1.1.1", 1)));
}

#[test]
fn not_exceed_cost_doesnt_lead_to_ban() {
    let mut v = default_validator();
    let input = vec![
        base_req("1.1.1.1", "GET", "/cost/1", "", 0),
        base_req("1.1.1.1", "GET", "/cost/1", "", 0),
        base_req("1.1.1.1", "GET", "/cost/1", "", 0),
        base_req("1.1.1.1", "GET", "/cost/1", "", 0),
    ];
    let mut results = vec![];
    for req in input {
        results.push(v.validate(req).ok().unwrap());
    }
    assert_eq!(results.pop().unwrap(), None);
}

#[test]
fn cost_waiting_before_last_request_doesnt_lead_to_ban() {
    let mut v = default_validator();
    let input = vec![
        base_req("1.1.1.1", "POST", "/cost/1", "", 0),
        base_req("1.1.1.1", "POST", "/cost/1", "", 0),
        base_req("1.1.1.1", "POST", "/cost/2", "", 2),
    ];
    let mut results = vec![];
    for req in input {
        results.push(v.validate(req).ok().unwrap());
    }
    assert_eq!(results, vec![None, None, None]);
}

#[test]
fn cost_exceed_after_first_ban_leads_to_new_ban() {
    let mut v = default_validator();
    let input = vec![
        base_req("1.1.1.1", "POST", "/cost/1", "", 0),
        base_req("1.1.1.1", "POST", "/cost/1", "", 0),
        base_req("1.1.1.1", "POST", "/cost/1", "", 0),
        base_req("1.1.1.1", "POST", "/cost/1", "", 0),
        base_req("1.1.1.1", "POST", "/cost/1", "", 0),
    ];
    let mut results = vec![];
    for req in input {
        results.push(v.validate(req).ok().unwrap());
    }
    assert_eq!(
        results,
        vec![None, None, Some(ip_ban("1.1.1.1", 1)), None, Some(ip_ban("1.1.1.1", 3))]
    );
}

#[test]
fn skipped_body_counts_as_empty() {
    let mut v = default_validator();
    let mut req = base_req("1.1.1.1", "POST", "/cost/1", "", 0);
    req.body = Body::Skipped;
    // the body pattern `.*` accepts the empty body, so the cost applies
    let got = v.validate(req).ok().unwrap();
    assert_eq!(got, None);
    let mut req2 = base_req("1.1.1.1", "POST", "/cost/1", "", 0);
    req2.body = Body::Skipped;
    let _ = v.validate(req2).ok().unwrap();
    let mut req3 = base_req("1.1.1.1", "POST", "/cost/1", "", 0);
    req3.body = Body::Skipped;
    assert_eq!(v.validate(req3).ok().unwrap(), Some(ip_ban("1.1.1.1", 1)));
}

#[test]
fn unparsable_timestamp_is_an_error_and_leaves_state_alone() {
    let mut v = default_validator();
    let mut bad = base_req("1.1.1.1", "POST", "/cost/1", "", 0);
    bad.timestamp = "not a time".to_string();
    assert!(v.validate(bad).is_err());
    // the erroring request counted nothing: three good ones still ban
    let mut results = vec![];
    for req in vec![
        base_req("1.1.1.1", "POST", "/cost/1", "", 0),
        base_req("1.1.1.1", "POST", "/cost/1", "", 0),
        base_req("1.1.1.1", "POST", "/cost/1", "", 0),
    ] {
        results.push(v.validate(req).ok().unwrap());
    }
    assert_eq!(results, vec![None, None, Some(ip_ban("1.1.1.1", 1))]);
}

#[test]
fn bad_pattern_is_rejected_at_construction() {
    let r = RequestsFromIPCost::new(Config {
        limits: vec![BanRule { limit: 1, ban_duration_ms: 1_000, reset_duration_ms: 1_000 }],
        patterns: vec![pattern(None, r"(", None, 1)],
        ban_description: "".to_string(),
        default_cost: 0,
    });
    assert!(r.is_err());
}

#[test]
fn empty_rules_are_rejected_at_construction() {
    let r = RequestsFromIPCost::new(Config {
        limits: vec![],
        patterns: vec![],
        ban_description: "".to_string(),
        default_cost: 0,
    });
    assert!(r.is_err());
}
