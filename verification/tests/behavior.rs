use stats_server::router::{handle_request, respond, HttpResponse};
use stats_server::stats::ServerStats;

fn message_field(body: &str) -> String {
    let v: serde_json::Value = serde_json::from_str(body).expect("body must be valid JSON");
    v.get("message")
        .and_then(|m| m.as_str())
        .expect("body must carry a message field")
        .to_string()
}

fn plain_respond(method: &str, path: &str) -> HttpResponse {
    respond(method, path, 1, 0, "2024-01-01T00:00:00+00:00", "0.0")
}

#[test]
fn echo_hello_message() {
    let r = plain_respond("GET", "/echo/hello");
    assert_eq!(r.status, 200);
    assert_eq!(message_field(&r.body), "Echo: hello");
}

#[test]
fn echo_empty_message() {
    let r = plain_respond("GET", "/echo/");
    assert_eq!(r.status, 200);
    assert_eq!(message_field(&r.body), "Echo: ");
}

#[test]
fn echo_quotes_and_backslashes_stay_valid_json() {
    let r = plain_respond("GET", "/echo/a\"b\\c");
    assert_eq!(r.status, 200);
    assert_eq!(message_field(&r.body), "Echo: a\"b\\c");
}

#[test]
fn unmatched_path_is_not_found() {
    let r = plain_respond("GET", "/nope");
    assert_eq!(r.status, 404);
    assert_eq!(message_field(&r.body), "Not Found");
}

#[test]
fn non_get_method_is_not_found() {
    let r = plain_respond("POST", "/stats");
    assert_eq!(r.status, 404);
    assert_eq!(message_field(&r.body), "Not Found");
}

#[test]
fn root_and_health_messages() {
    let root = plain_respond("GET", "/");
    assert_eq!(root.status, 200);
    assert_eq!(message_field(&root.body), "Welcome to Rust HTTP Server!");
    let health = plain_respond("GET", "/health");
    assert_eq!(health.status, 200);
    assert_eq!(message_field(&health.body), "Server is healthy");
}

#[test]
fn every_response_carries_the_fixed_headers() {
    let cases = [
        ("GET", "/"),
        ("GET", "/health"),
        ("GET", "/stats"),
        ("GET", "/echo/x"),
        ("GET", "/nope"),
        ("DELETE", "/"),
    ];
    for (method, path) in cases {
        let r = plain_respond(method, path);
        assert_eq!(r.content_type, "application/json");
        assert_eq!(r.server, "rust-http-server/1.0");
    }
    let mut stats = ServerStats::new();
    let r = handle_request("PUT", "/whatever", &mut stats, "0.0");
    assert_eq!(r.content_type, "application/json");
    assert_eq!(r.server, "rust-http-server/1.0");
}

#[test]
fn stats_after_five_requests_counts_six() {
    let mut stats = ServerStats::new();
    handle_request("GET", "/", &mut stats, "0.0");
    handle_request("GET", "/health", &mut stats, "0.0");
    handle_request("GET", "/echo/one", &mut stats, "0.0");
    handle_request("GET", "/nope", &mut stats, "0.0");
    handle_request("POST", "/", &mut stats, "0.0");
    let r = handle_request("GET", "/stats", &mut stats, "0.0");
    assert_eq!(stats.get_total_requests(), 6);
    assert_eq!(r.status, 200);
    let v: serde_json::Value = serde_json::from_str(&r.body).expect("stats body must be JSON");
    assert_eq!(v.get("total_requests").and_then(|x| x.as_u64()), Some(6));
    // The tracker was created moments ago, so no whole second has elapsed
    // and the reported rate must be exactly zero.
    assert_eq!(v.get("uptime_seconds").and_then(|x| x.as_u64()), Some(0));
    assert_eq!(v.get("requests_per_second").and_then(|x| x.as_f64()), Some(0.0));
}

#[test]
fn every_request_counts_exactly_once() {
    let mut stats = ServerStats::new();
    assert_eq!(stats.get_total_requests(), 0);
    for _ in 0..10_000 {
        stats.increment_requests();
    }
    assert_eq!(stats.get_total_requests(), 10_000);
}

#[test]
fn stats_route_body_parses_back() {
    let mut stats = ServerStats::new();
    let r = handle_request("GET", "/stats", &mut stats, "0.0");
    let v = stats_server::json::parse_stats_body(&r.body).expect("stats body must parse");
    assert_eq!(v.total_requests, 1);
    assert_eq!(v.requests_per_second, "0.0");
    let (total, _uptime) = stats.snapshot();
    assert_eq!(total, 1);
}

#[test]
fn handled_bodies_always_parse_back() {
    // The timestamp comes from the clock; the scan rejects control
    // characters, so parsing proves the clock text is clean.
    let mut stats = ServerStats::new();
    let r = handle_request("GET", "/", &mut stats, "0.0");
    let parsed = stats_server::json::parse_message_body(&r.body).expect("body must parse");
    assert_eq!(parsed.message, "Welcome to Rust HTTP Server!");
    assert_eq!(parsed.server, "rust-http-server/1.0");
    assert!(!parsed.timestamp.is_empty());
}
