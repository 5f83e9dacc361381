use stats_server::json::{
    message_body, parse_message_body, parse_stats_body, stats_body,
};
use stats_server::num::u64_string;

#[test]
fn message_body_round_trips() {
    let body = message_body("Echo: hi there", "2024-06-01T10:20:30+02:00", "rust-http-server/1.0");
    let v = parse_message_body(&body).expect("own body must parse");
    assert_eq!(v.message, "Echo: hi there");
    assert_eq!(v.timestamp, "2024-06-01T10:20:30+02:00");
    assert_eq!(v.server, "rust-http-server/1.0");
}

#[test]
fn message_body_round_trips_with_escapes() {
    let body = message_body("say \"hi\" \\ twice", "t", "s");
    let v = parse_message_body(&body).expect("escaped body must parse");
    assert_eq!(v.message, "say \"hi\" \\ twice");
    assert_eq!(v.timestamp, "t");
    assert_eq!(v.server, "s");
    // And the text between the quotes really is escaped.
    let j: serde_json::Value = serde_json::from_str(&body).expect("must stay valid JSON");
    assert_eq!(j.get("message").and_then(|m| m.as_str()), Some("say \"hi\" \\ twice"));
}

#[test]
fn stats_body_round_trips() {
    let rps = format!("{}", 5u64 as f64 / 3u64 as f64);
    let body = stats_body(5, 3, &rps);
    let v = parse_stats_body(&body).expect("own stats body must parse");
    assert_eq!(v.total_requests, 5);
    assert_eq!(v.uptime_seconds, 3);
    assert_eq!(v.requests_per_second, rps);
    let j: serde_json::Value = serde_json::from_str(&body).expect("must be valid JSON");
    assert_eq!(j.get("requests_per_second").and_then(|x| x.as_f64()), Some(5f64 / 3f64));
}

#[test]
fn stats_body_round_trips_at_the_largest_counter() {
    let body = stats_body(u64::MAX, 0, "0.0");
    assert!(body.contains("\"total_requests\":18446744073709551615"));
    let v = parse_stats_body(&body).expect("largest counter must parse");
    assert_eq!(v.total_requests, u64::MAX);
    assert_eq!(v.uptime_seconds, 0);
    assert_eq!(v.requests_per_second, "0.0");
}

#[test]
fn u64_text_is_exact() {
    assert_eq!(u64_string(0), "0");
    assert_eq!(u64_string(10), "10");
    assert_eq!(u64_string(907), "907");
    assert_eq!(u64_string(u64::MAX), "18446744073709551615");
}

#[test]
fn malformed_bodies_are_rejected() {
    assert!(parse_message_body("").is_none());
    assert!(parse_message_body("{}").is_none());
    assert!(parse_message_body("{\"message\":\"a\"}").is_none());
    assert!(parse_message_body("{\"message\":\"a\",\"timestamp\":\"t\",\"server\":\"s\"").is_none());
    assert!(parse_message_body("{\"message\":\"a\u{0007}\",\"timestamp\":\"t\",\"server\":\"s\"}").is_none());
    assert!(parse_stats_body("").is_none());
    assert!(parse_stats_body("{\"total_requests\":,\"uptime_seconds\":1,\"requests_per_second\":0.0}").is_none());
    // One more than the largest u64 must not pretend to fit.
    assert!(parse_stats_body("{\"total_requests\":18446744073709551616,\"uptime_seconds\":1,\"requests_per_second\":0.0}").is_none());
    assert!(parse_stats_body("{\"total_requests\":111111111111111111111111,\"uptime_seconds\":1,\"requests_per_second\":0.0}").is_none());
}
