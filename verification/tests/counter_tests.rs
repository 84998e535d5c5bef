use ban_analyzer::detectors::ip_counter::{Config, RequestsFromIPCounter};
use ban_analyzer::model::{BanRequest, BanTarget, Body, Request};
use ban_analyzer::rules::BanRule;
use chrono::{Duration, Utc};

/// The cascade used across the counter tests:
/// 3 requests -> 1s ban, 2s reset; 2 -> 3s ban, 6s reset; 1 -> 4s ban, 8s reset.
fn default_validator() -> RequestsFromIPCounter {
    RequestsFromIPCounter::new(Config {
        limits: vec![
            BanRule { limit: 3, ban_duration_ms: 1_000, reset_duration_ms: 2_000 },
            BanRule { limit: 2, ban_duration_ms: 3_000, reset_duration_ms: 6_000 },
            BanRule { limit: 1, ban_duration_ms: 4_000, reset_duration_ms: 8_000 },
        ],
        ban_description: "".to_string(),
    })
    .ok()
    .expect("counter detector")
}

fn req_with_ip(ip: &str, wait_secs: i64) -> Request {
    Request {
        timestamp: (Utc::now() + Duration::seconds(wait_secs)).to_string(),
        remote_ip: ip.to_string(),
        host: "".to_string(),
        method: "".to_string(),
        path: "".to_string(),
        headers: Vec::new(),
        body: Body::Original("".to_string()),
    }
}

fn ip_ban(ip: &str, ttl: u32) -> BanRequest {
    BanRequest {
        target: BanTarget { ip: Some(ip.to_string()), user_agent: None },
        reason: "".to_string(),
        ttl,
    }
}

struct TestCase {
    input: Vec<Request>,
    want_last: Option<Option<BanRequest>>,
    want_every: Option<Vec<Option<BanRequest>>>,
}

fn run_test(tc: TestCase) {
    let mut results = vec![];
    let mut v = default_validator();
    for req in tc.input {
        if let Ok(r) = v.validate(req) {
            results.push(r);
        }
    }

    assert!(tc.want_every.is_some() || tc.want_last.is_some());

    if let Some(ev) = tc.want_every {
        assert_eq!(ev, results)
    }
    if let Some(ev) = tc.want_last {
        let res = results.pop().unwrap();
        assert_eq!(ev, res)
    }
}

fn case_exceed_requests_leads_to_ban() {
    run_test(TestCase {
        input: vec![
            req_with_ip("1.1.1.1", 0),
            req_with_ip("1.1.1.1", 0),
            req_with_ip("1.1.1.1", 0),
        ],
        want_last: Some(Some(ip_ban("1.1.1.1", 1))),
        want_every: None,
    });
}

fn case_not_exceed_requests_doesnt_lead_to_ban() {
    run_test(TestCase {
        input: vec![req_with_ip("1.1.1.1", 0)],
        want_last: Some(None),
        want_every: None,
    });
}

fn case_waiting_before_last_request_doesnt_lead_to_ban() {
    run_test(TestCase {
        input: vec![
            req_with_ip("1.1.1.1", 0),
            req_with_ip("1.1.1.1", 0),
            req_with_ip("1.1.1.1", 2),
        ],
        want_last: Some(None),
        want_every: Some(vec![None, None, None]),
    });
}

fn case_rate_limit_doesnt_lead_to_ban() {
    run_test(TestCase {
        input: vec![
            req_with_ip("1.1.1.1", 0),
            req_with_ip("1.1.1.1", 1),
            req_with_ip("1.1.1.1", 2),
            req_with_ip("1.1.1.1", 3),
            req_with_ip("1.1.1.1", 4),
        ],
        want_last: None,
        want_every: Some(vec![None, None, None, None, None]),
    });
}

fn case_request_while_banned_leads_to_nothing() {
    run_test(TestCase {
        input: vec![
            req_with_ip("1.1.1.1", 0),
            req_with_ip("1.1.1.1", 0),
            req_with_ip("1.1.1.1", 0),
            req_with_ip("1.1.1.1", 0),
        ],
        want_last: None,
        want_every: Some(vec![None, None, Some(ip_ban("1.1.1.1", 1)), None]),
    });
}

fn case_exceed_requests_after_first_ban_leads_to_new_ban() {
    run_test(TestCase {
        input: vec![
            req_with_ip("1.1.1.1", 0),
            req_with_ip("1.1.1.1", 0),
            req_with_ip("1.1.1.1", 0),
            req_with_ip("1.1.1.1", 0),
            req_with_ip("1.1.1.1", 0),
        ],
        want_last: None,
        want_every: Some(vec![
            None,
            None,
            Some(ip_ban("1.1.1.1", 1)),
            None,
            Some(ip_ban("1.1.1.1", 3)),
        ]),
    });
}

fn case_one_ip_provides_ban_only_for_itself() {
    run_test(TestCase {
        input: vec![
            req_with_ip("1.1.1.1", 0),
            req_with_ip("2.2.2.2", 0),
            req_with_ip("3.3.3.3", 0),
            req_with_ip("3.3.3.3", 0),
            req_with_ip("3.3.3.3", 0),
            req_with_ip("1.1.1.1", 0),
            req_with_ip("1.1.1.1", 0),
        ],
        want_last: None,
        want_every: Some(vec![
            None,
            None,
            None,
            None,
            Some(ip_ban("3.3.3.3", 1)),
            None,
            Some(ip_ban("1.1.1.1", 1)),
        ]),
    });
}

fn case_after_reset_baned_by_first_rule() {
    run_test(TestCase {
        input: vec![
            req_with_ip("1.1.1.1", 0),
            req_with_ip("1.1.1.1", 0),
            req_with_ip("1.1.1.1", 0),
            req_with_ip("1.1.1.1", 3),
            req_with_ip("1.1.1.1", 3),
            req_with_ip("1.1.1.1", 3),
        ],
        want_last: None,
        want_every: Some(vec![
            None,
            None,
            Some(ip_ban("1.1.1.1", 1)),
            None,
            None,
            Some(ip_ban("1.1.1.1", 1)),
        ]),
    });
}

fn case_same_ban_after_exceed_last_limit_again() {
    run_test(TestCase {
        input: vec![
            req_with_ip("1.1.1.1", 0),
            req_with_ip("1.1.1.1", 0),
            req_with_ip("1.1.1.1", 0),
            req_with_ip("1.1.1.1", 0),
            req_with_ip("1.1.1.1", 0),
            req_with_ip("1.1.1.1", 0),
            req_with_ip("1.1.1.1", 0),
        ],
        want_last: None,
        want_every: Some(vec![
            None,
            None,
            Some(ip_ban("1.1.1.1", 1)),
            None,
            Some(ip_ban("1.1.1.1", 3)),
            Some(ip_ban("1.1.1.1", 4)),
            Some(ip_ban("1.1.1.1", 4)),
        ]),
    });
}

#[test]
fn exceed_requests_leads_to_ban() {
    case_exceed_requests_leads_to_ban();
}

#[test]
fn not_exceed_requests_doesnt_lead_to_ban() {
    case_not_exceed_requests_doesnt_lead_to_ban();
}

#[test]
fn waiting_before_last_request_doesnt_lead_to_ban() {
    case_waiting_before_last_request_doesnt_lead_to_ban();
}

#[test]
fn rate_limit_doesnt_lead_to_ban() {
    case_rate_limit_doesnt_lead_to_ban();
}

#[test]
fn request_while_banned_leads_to_nothing() {
    case_request_while_banned_leads_to_nothing();
}

#[test]
fn exceed_requests_after_first_ban_leads_to_new_ban() {
    case_exceed_requests_after_first_ban_leads_to_new_ban();
}

#[test]
fn one_ip_provides_ban_only_for_itself() {
    case_one_ip_provides_ban_only_for_itself();
}

#[test]
fn after_reset_baned_by_first_rule() {
    case_after_reset_baned_by_first_rule();
}

#[test]
fn same_ban_after_exceed_last_limit_again() {
    case_same_ban_after_exceed_last_limit_again();
}

#[test]
fn mod_exceed_requests_leads_to_ban() {
    case_exceed_requests_leads_to_ban();
}

#[test]
fn mod_not_exceed_requests_doesnt_lead_to_ban() {
    case_not_exceed_requests_doesnt_lead_to_ban();
}

#[test]
fn mod_waiting_before_last_request_doesnt_lead_to_ban() {
    case_waiting_before_last_request_doesnt_lead_to_ban();
}

#[test]
fn mod_rate_limit_doesnt_lead_to_ban() {
    case_rate_limit_doesnt_lead_to_ban();
}

#[test]
fn mod_request_while_banned_leads_to_nothing() {
    case_request_while_banned_leads_to_nothing();
}

#[test]
fn mod_exceed_requests_after_first_ban_leads_to_new_ban() {
    case_exceed_requests_after_first_ban_leads_to_new_ban();
}

#[test]
fn mod_one_ip_provides_ban_only_for_itself() {
    case_one_ip_provides_ban_only_for_itself();
}

#[test]
fn mod_after_reset_baned_by_first_rule() {
    case_after_reset_baned_by_first_rule();
}

#[test]
fn mod_same_ban_after_exceed_last_limit_again() {
    case_same_ban_after_exceed_last_limit_again();
}

#[test]
fn ip_count_exceed_requests_leads_to_ban() {
    case_exceed_requests_leads_to_ban();
}

#[test]
fn ip_count_not_exceed_requests_doesnt_lead_to_ban() {
    case_not_exceed_requests_doesnt_lead_to_ban();
}

#[test]
fn ip_count_waiting_before_last_request_doesnt_lead_to_ban() {
    case_waiting_before_last_request_doesnt_lead_to_ban();
}

#[test]
fn ip_count_rate_limit_doesnt_lead_to_ban() {
    case_rate_limit_doesnt_lead_to_ban();
}

#[test]
fn ip_count_request_while_banned_leads_to_nothing() {
    case_request_while_banned_leads_to_nothing();
}

#[test]
fn ip_count_exceed_requests_after_first_ban_leads_to_new_ban() {
    case_exceed_requests_after_first_ban_leads_to_new_ban();
}

#[test]
fn ip_count_one_ip_provides_ban_only_for_itself() {
    case_one_ip_provides_ban_only_for_itself();
}

#[test]
fn ip_count_after_reset_baned_by_first_rule() {
    case_after_reset_baned_by_first_rule();
}

#[test]
fn ip_count_same_ban_after_exceed_last_limit_again() {
    case_same_ban_after_exceed_last_limit_again();
}

#[test]
fn validator_exceed_requests_leads_to_ban() {
    case_exceed_requests_leads_to_ban();
}

#[test]
fn validator_not_exceed_requests_doesnt_lead_to_ban() {
    case_not_exceed_requests_doesnt_lead_to_ban();
}

#[test]
fn validator_waiting_before_last_request_doesnt_lead_to_ban() {
    case_waiting_before_last_request_doesnt_lead_to_ban();
}

#[test]
fn validator_rate_limit_doesnt_lead_to_ban() {
    case_rate_limit_doesnt_lead_to_ban();
}

#[test]
fn validator_request_while_banned_leads_to_nothing() {
    case_request_while_banned_leads_to_nothing();
}

#[test]
fn validator_exceed_requests_after_first_ban_leads_to_new_ban() {
    case_exceed_requests_after_first_ban_leads_to_new_ban();
}

#[test]
fn validator_one_ip_provides_ban_only_for_itself() {
    case_one_ip_provides_ban_only_for_itself();
}

#[test]
fn validator_after_reset_baned_by_first_rule() {
    case_after_reset_baned_by_first_rule();
}

#[test]
fn validator_same_ban_after_exceed_last_limit_again() {
    case_same_ban_after_exceed_last_limit_again();
}
