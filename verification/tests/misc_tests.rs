use ban_analyzer::coster::{CostCount, RequestCoster, RequestIP};
use ban_analyzer::detectors::dummy::{Config as DummyConfig, Dummy};
use ban_analyzer::detectors::ip_counter::{Config as CounterConfig, RequestsFromIPCounter};
use ban_analyzer::forwarder::{
    ANALYZER_HEADER, EmitAction, ExecutorClient, NoopClient, RetryPolicy, Service as Forwarder,
    analyzer_id_value, is_success_status, next_emit_action,
};
use ban_analyzer::ingest::flatten_decoded;
use ban_analyzer::model::{BanRequest, BanTarget, Body, Request};
use ban_analyzer::rules::BanRule;
use ban_analyzer::rules::{HeaderError, RulesError};
use ban_analyzer::service::{AnyValidator, Config, Service, get_validator};
use ban_analyzer::telemetry::{LogsFormat, default_format};
use ban_analyzer::validator::ValidatorError;

fn req(ip: &str) -> Request {
    Request {
        timestamp: "2024-05-01T10:00:00Z".to_string(),
        remote_ip: ip.to_string(),
        host: "".to_string(),
        method: "GET".to_string(),
        path: "/".to_string(),
        headers: Vec::new(),
        body: Body::Skipped,
    }
}

#[test]
fn odd_dummy_bans_every_request() {
    let mut d = Dummy::new(DummyConfig { idx: 3, ban_duration_secs: Some(60) });
    let got = d.validate(req("9.9.9.9")).ok().unwrap();
    assert_eq!(
        got,
        Some(BanRequest {
            target: BanTarget { ip: Some("9.9.9.9".to_string()), user_agent: None },
            reason: "Validator has 3 id".to_string(),
            ttl: 60,
        })
    );
    assert_eq!(d.name(), "dummy-3".to_string());
}

#[test]
fn even_dummy_stays_silent() {
    let mut d = Dummy::new(DummyConfig { idx: 2, ban_duration_secs: None });
    assert_eq!(d.validate(req("9.9.9.9")).ok().unwrap(), None);
    assert_eq!(d.ban_ttl_secs, 120);
}

#[test]
fn service_fans_requests_across_validators_in_order() {
    let counter = get_validator(Config::RequestsFromIPCounter(CounterConfig {
        limits: vec![BanRule { limit: 1, ban_duration_ms: 1_000, reset_duration_ms: 2_000 }],
        ban_description: "counter".to_string(),
    }))
    .ok()
    .expect("counter");
    let dummy = get_validator(Config::Dummy(DummyConfig { idx: 1, ban_duration_secs: Some(9) }))
        .ok()
        .expect("dummy");
    let mut svc = Service::from_validators(vec![dummy, counter]);
    let out = svc.process(&req("5.5.5.5"));
    assert_eq!(out.len(), 2);
    assert_eq!(out[0].validator_name, "dummy-1".to_string());
    assert_eq!(out[0].ban_request.ttl, 9);
    assert_eq!(out[1].validator_name, "requests-from-ip-counter".to_string());
    assert_eq!(out[1].ban_request.ttl, 1);
    assert_eq!(out[1].ban_request.target.ip, Some("5.5.5.5".to_string()));
}

#[test]
fn service_skips_an_erring_validator_and_continues() {
    let counter = get_validator(Config::RequestsFromIPCounter(CounterConfig {
        limits: vec![BanRule { limit: 1, ban_duration_ms: 1_000, reset_duration_ms: 2_000 }],
        ban_description: "counter".to_string(),
    }))
    .ok()
    .expect("counter");
    let mut svc = Service::from_validators(vec![counter]);
    let mut bad = req("5.5.5.5");
    bad.timestamp = "garbage".to_string();
    let out = svc.process(&bad);
    assert_eq!(out.len(), 0);
    // the detector's state is untouched: a single good request still bans
    let out2 = svc.process(&req("5.5.5.5"));
    assert_eq!(out2.len(), 1);
}

#[test]
fn validator_names_match_their_kinds() {
    let v = get_validator(Config::Dummy(DummyConfig { idx: 7, ban_duration_secs: None }))
        .ok()
        .expect("dummy");
    match v {
        AnyValidator::Dummy(d) => assert_eq!(d.name(), "dummy-7".to_string()),
        _ => panic!("dummy expected"),
    }
}

#[test]
fn analyzer_header_and_value() {
    assert_eq!(ANALYZER_HEADER, "X-Analyzer-Id");
    assert_eq!(analyzer_id_value("edge-7", "requests-from-ip-counter"),
        "edge-7:requests-from-ip-counter".to_string());
    let f = Forwarder::new("edge-7".to_string(), RetryPolicy {
        retry_count: 3,
        retry_interval_ms: 250,
    });
    assert_eq!(f.header_value("dummy-1"), "edge-7:dummy-1".to_string());
}

#[test]
fn only_no_content_counts_as_delivered() {
    assert!(is_success_status(204));
    assert!(!is_success_status(200));
    assert!(!is_success_status(500));
}

#[test]
fn retry_policy_runs_to_exhaustion() {
    let p = RetryPolicy { retry_count: 2, retry_interval_ms: 100 };
    assert!(matches!(next_emit_action(&p, 1, true), EmitAction::Done));
    assert!(matches!(next_emit_action(&p, 1, false), EmitAction::RetryAfter(100)));
    assert!(matches!(next_emit_action(&p, 2, false), EmitAction::RetryAfter(100)));
    assert!(matches!(next_emit_action(&p, 3, false), EmitAction::Drop));
}

#[test]
fn noop_client_accepts_everything() {
    let c = NoopClient {};
    let br = BanRequest {
        target: BanTarget { ip: Some("1.1.1.1".to_string()), user_agent: None },
        reason: "".to_string(),
        ttl: 1,
    };
    assert!(c.ban(&br, &"a:b".to_string()).is_ok());
}

#[test]
fn flatten_keeps_order_and_drops_bad_messages() {
    let batches = vec![
        Some(vec![req("1.1.1.1"), req("2.2.2.2")]),
        None,
        Some(vec![req("3.3.3.3")]),
    ];
    let out = flatten_decoded(batches);
    let ips: Vec<String> = out.into_iter().map(|r| r.remote_ip).collect();
    assert_eq!(ips, vec!["1.1.1.1".to_string(), "2.2.2.2".to_string(), "3.3.3.3".to_string()]);
}

#[test]
fn log_format_defaults_to_full() {
    assert_eq!(default_format(), LogsFormat::Full);
}

#[test]
fn cost_count_weighs_every_request_as_one() {
    let c = CostCount {};
    assert_eq!(c.cost(&req("1.1.1.1")), 1);
}

#[test]
fn request_ip_projects_and_converts() {
    let k = RequestIP::of_request(&req("8.8.8.8"));
    assert_eq!(k.ip, "8.8.8.8".to_string());
    let t = k.into_target();
    assert_eq!(t.ip, Some("8.8.8.8".to_string()));
    assert_eq!(t.user_agent, None);
}

#[test]
fn oversized_ban_duration_is_rejected_at_construction() {
    let r = RequestsFromIPCounter::new(CounterConfig {
        limits: vec![BanRule {
            limit: 1,
            ban_duration_ms: u64::MAX,
            reset_duration_ms: 1_000,
        }],
        ban_description: "".to_string(),
    });
    assert!(r.is_err());
}

#[test]
fn error_messages_name_their_cause() {
    let e = ValidatorError::Rules(RulesError::NotFound(7));
    assert_eq!(e.message(), "rule 7 not found".to_string());
    let e = ValidatorError::Header(HeaderError::NotFound("user-agent".to_string()));
    assert_eq!(e.message(), "user-agent header not found".to_string());
    let e = ValidatorError::Timestamp;
    assert_eq!(e.message(), "invalid timestamp".to_string());
}

#[test]
fn ttl_is_the_ban_length_in_whole_seconds() {
    let r = BanRule { limit: 1, ban_duration_ms: 1_500, reset_duration_ms: 2_000 };
    assert_eq!(r.ttl_seconds(), 1);
    let r = BanRule { limit: 1, ban_duration_ms: 999, reset_duration_ms: 2_000 };
    assert_eq!(r.ttl_seconds(), 0);
    let r = BanRule { limit: 1, ban_duration_ms: 60_000, reset_duration_ms: 2_000 };
    assert_eq!(r.ttl_seconds(), 60);
}
