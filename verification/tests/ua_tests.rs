use ban_analyzer::detectors::ua_counter::{Config, RequestsFromUACounter};
use ban_analyzer::model::{BanRequest, BanTarget, Body, Request};
use ban_analyzer::rules::BanRule;
use chrono::{Duration, Utc};

/// The cascade used across the user-agent tests:
/// 3 requests -> 1s ban, 2s reset; 2 -> 3s ban, 6s reset; 1 -> 4s ban, 8s reset.
fn default_validator() -> RequestsFromUACounter {
    RequestsFromUACounter::new(Config {
        limits: vec![
            BanRule { limit: 3, ban_duration_ms: 1_000, reset_duration_ms: 2_000 },
            BanRule { limit: 2, ban_duration_ms: 3_000, reset_duration_ms: 6_000 },
            BanRule { limit: 1, ban_duration_ms: 4_000, reset_duration_ms: 8_000 },
        ],
        patterns: vec![r".*AAA.*".to_string(), r".*BBB.*".to_string(), r"123".to_string()],
        ban_description: "".to_string(),
    })
    .ok()
    .expect("user-agent detector")
}

fn req_with_ua(ua: &str, wait_secs: i64) -> Request {
    Request {
        timestamp: (Utc::now() + Duration::seconds(wait_secs)).to_string(),
        remote_ip: "".to_string(),
        host: "".to_string(),
        method: "".to_string(),
        path: "".to_string(),
        headers: vec![("User-Agent".to_string(), ua.to_string())],
        body: Body::Original("".to_string()),
    }
}

fn empty_request(wait_secs: i64) -> Request {
    Request {
        timestamp: (Utc::now() + Duration::seconds(wait_secs)).to_string(),
        remote_ip: "".to_string(),
        host: "".to_string(),
        method: "".to_string(),
        path: "".to_string(),
        headers: Vec::new(),
        body: Body::Original("".to_string()),
    }
}

fn ua_ban(ua: &str, ttl: u32) -> BanRequest {
    BanRequest {
        target: BanTarget { ip: None, user_agent: Some(ua.to_string()) },
        reason: "".to_string(),
        ttl,
    }
}

#[test]
fn ua_exceed_requests_leads_to_ban() {
    let mut v = default_validator();
    let mut results = vec![];
    for req in vec![req_with_ua("AAA", 0), req_with_ua("AAA", 0), req_with_ua("AAA", 0)] {
        results.push(v.validate(req).ok().unwrap());
    }
    assert_eq!(results.pop().unwrap(), Some(ua_ban("AAA", 1)));
}

#[test]
fn one_ua_provides_ban_only_for_itself() {
    let mut v = default_validator();
    let input = vec![
        req_with_ua("123", 0),
        req_with_ua("AAA", 0),
        req_with_ua("BBB", 0),
        req_with_ua("BBB", 0),
        req_with_ua("BBB", 0),
        req_with_ua("BBB", 0),
        req_with_ua("BBB", 0),
        req_with_ua("123", 0),
        req_with_ua("123", 0),
    ];
    let mut results = vec![];
    for req in input {
        results.push(v.validate(req).ok().unwrap());
    }
    assert_eq!(
        results,
        vec![
            None,
            None,
            None,
            None,
            Some(ua_ban("BBB", 1)),
            None,
            Some(ua_ban("BBB", 3)),
            None,
            Some(ua_ban("123", 1)),
        ]
    );
}

#[test]
fn ua_after_reset_baned_by_first_rule() {
    let mut v = default_validator();
    let input = vec![
        req_with_ua("123", 0),
        req_with_ua("123", 0),
        req_with_ua("123", 0),
        req_with_ua("123", 3),
        req_with_ua("123", 3),
        req_with_ua("123", 3),
    ];
    let mut results = vec![];
    for req in input {
        results.push(v.validate(req).ok().unwrap());
    }
    assert_eq!(
        results,
        vec![None, None, Some(ua_ban("123", 1)), None, None, Some(ua_ban("123", 1))]
    );
}

#[test]
fn error_when_no_user_agent() {
    let mut v = default_validator();
    let got = v.validate(empty_request(0));
    let err = match got {
        Err(e) => e,
        Ok(_) => panic!("error expected"),
    };
    assert_eq!(err.message(), "user-agent header not found".to_string());
}

#[test]
fn do_nothing_if_user_agent_doesnt_match_pattern() {
    let mut v = default_validator();
    let input = vec![
        req_with_ua("some ua", 0),
        req_with_ua("some ua", 0),
        req_with_ua("some ua", 0),
        req_with_ua("some ua", 0),
    ];
    let mut results = vec![];
    for req in input {
        results.push(v.validate(req).ok().unwrap());
    }
    assert_eq!(results, vec![None, None, None, None]);
}

#[test]
fn ua_same_ban_after_exceed_last_limit_again() {
    let mut v = default_validator();
    let input = vec![
        req_with_ua("123", 0),
        req_with_ua("123", 0),
        req_with_ua("123", 0),
        req_with_ua("123", 0),
        req_with_ua("123", 0),
        req_with_ua("123", 0),
        req_with_ua("123", 0),
    ];
    let mut results = vec![];
    for req in input {
        results.push(v.validate(req).ok().unwrap());
    }
    assert_eq!(
        results,
        vec![
            None,
            None,
            Some(ua_ban("123", 1)),
            None,
            Some(ua_ban("123", 3)),
            Some(ua_ban("123", 4)),
            Some(ua_ban("123", 4)),
        ]
    );
}

#[test]
fn ua_header_lookup_is_case_insensitive() {
    let mut v = default_validator();
    let mut req = req_with_ua("AAA", 0);
    req.headers = vec![("uSeR-aGeNt".to_string(), "AAA".to_string())];
    let got = v.validate(req).ok().unwrap();
    assert_eq!(got, None);
}
