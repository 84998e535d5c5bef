use ban_analyzer::json::{ban_request_from_json, ban_request_to_json};
use ban_analyzer::model::{BanRequest, BanTarget};

fn round_trips(br: BanRequest) {
    let text = ban_request_to_json(&br);
    let back = ban_request_from_json(text.as_str()).expect("the emitted text parses");
    assert_eq!(back, br);
}

#[test]
fn json_round_trip_for_an_address_ban() {
    round_trips(BanRequest {
        target: BanTarget { ip: Some("1.1.1.1".to_string()), user_agent: None },
        reason: "too many requests".to_string(),
        ttl: 1,
    });
}

#[test]
fn json_round_trip_for_a_user_agent_ban() {
    round_trips(BanRequest {
        target: BanTarget { ip: None, user_agent: Some("crawler 9000".to_string()) },
        reason: "agent matched a banned pattern".to_string(),
        ttl: 86_400,
    });
}

#[test]
fn json_round_trip_for_a_full_target() {
    round_trips(BanRequest {
        target: BanTarget {
            ip: Some("2001:db8::7".to_string()),
            user_agent: Some("tool/1.0".to_string()),
        },
        reason: "both keys known".to_string(),
        ttl: u32::MAX,
    });
}

#[test]
fn json_round_trip_escapes_special_characters() {
    round_trips(BanRequest {
        target: BanTarget { ip: Some("1.1.1.1".to_string()), user_agent: None },
        reason: "quote \" backslash \\ newline \n tab \t end".to_string(),
        ttl: 0,
    });
}

#[test]
fn json_text_has_the_documented_shape() {
    let br = BanRequest {
        target: BanTarget { ip: Some("1.1.1.1".to_string()), user_agent: None },
        reason: "r".to_string(),
        ttl: 5,
    };
    let text = ban_request_to_json(&br);
    assert_eq!(text, "{\"target\":{\"ip\":\"1.1.1.1\"},\"reason\":\"r\",\"ttl\":5}".to_string());
}

#[test]
fn json_text_is_valid_json_to_an_outside_reader() {
    let br = BanRequest {
        target: BanTarget { ip: Some("1.1.1.1".to_string()), user_agent: None },
        reason: "line\nbreak and \"quote\"".to_string(),
        ttl: 77,
    };
    let text = ban_request_to_json(&br);
    let value: serde_json::Value = serde_json::from_str(text.as_str()).expect("well-formed JSON");
    assert_eq!(
        value.get("target").and_then(|t| t.get("ip")).and_then(|v| v.as_str()),
        Some("1.1.1.1")
    );
    assert_eq!(
        value.get("reason").and_then(|v| v.as_str()),
        Some("line\nbreak and \"quote\"")
    );
    assert_eq!(value.get("ttl").and_then(|v| v.as_u64()), Some(77));
}

#[test]
fn json_parser_rejects_foreign_text() {
    assert!(ban_request_from_json("").is_none());
    assert!(ban_request_from_json("{}").is_none());
    assert!(ban_request_from_json("{\"target\":{},\"reason\":\"r\",\"ttl\":99999999999}").is_none());
}
