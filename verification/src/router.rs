//! Routing and dispatch: the fixed route table, the handlers for each
//! route, and the finished response every dispatched request gets.

use vstd::prelude::*;

use crate::json::{
    is_ctl, json_message_body, json_stats_body, lemma_message_round_trip, lemma_stats_round_trip,
    lit_at, match_lit, message_body, spec_parse_message_body, spec_parse_stats_body, stats_body,
    wf_text,
};
use crate::stats::ServerStats;

verus! {

/// The routes the service answers.
#[derive(Clone, Copy, PartialEq, Eq, Structural, Debug)]
pub enum Route {
    Root,
    Health,
    Stats,
    Echo,
    NotFound,
}

/// Whether `path` begins with the six-character echo prefix.
pub open spec fn is_echo_path(path: Seq<char>) -> bool {
    path.len() >= 6 && path.subrange(0, 6) == "/echo/"@
}

/// The route rules, first match wins: the three exact paths, then the echo
/// prefix, then not-found; a method other than GET matches no route.
pub open spec fn spec_route(method: Seq<char>, path: Seq<char>) -> Route {
    if method != "GET"@ {
        Route::NotFound
    } else if path == "/"@ {
        Route::Root
    } else if path == "/health"@ {
        Route::Health
    } else if path == "/stats"@ {
        Route::Stats
    } else if is_echo_path(path) {
        Route::Echo
    } else {
        Route::NotFound
    }
}

/// Character-for-character equality of two strings.
fn str_eq(a: &str, b: &str) -> (r: bool)
    ensures
        r == (a@ == b@),
{
    let n = a.unicode_len();
    let m = b.unicode_len();
    if n != m {
        proof {
            assert(a@ != b@) by {
                if a@ == b@ {
                    assert(a@.len() == b@.len());
                }
            }
        }
        return false;
    }
    let r = match_lit(a, n, 0, b);
    proof {
        assert(a@.subrange(0, a@.len() as int) =~= a@);
        if !r {
            if a@ == b@ {
                assert(lit_at(a@, 0, b@));
            }
        }
    }
    r
}

/// Selects the route for one request line.
pub fn route(method: &str, path: &str) -> (r: Route)
    ensures
        r == spec_route(method@, path@),
{
    if !str_eq(method, "GET") {
        return Route::NotFound;
    }
    if str_eq(path, "/") {
        return Route::Root;
    }
    if str_eq(path, "/health") {
        return Route::Health;
    }
    if str_eq(path, "/stats") {
        return Route::Stats;
    }
    let n = path.unicode_len();
    proof {
        reveal_strlit("/echo/");
    }
    if match_lit(path, n, 0, "/echo/") {
        Route::Echo
    } else {
        Route::NotFound
    }
}

/// One finished HTTP response: the status code, the two fixed headers, and
/// the JSON body text.
pub struct HttpResponse {
    pub status: u16,
    pub content_type: String,
    pub server: String,
    pub body: String,
}

/// The fixed server identification, sent as the `Server` header and as the
/// `server` body field.
pub open spec fn server_id() -> Seq<char> {
    "rust-http-server/1.0"@
}

/// The message text each non-stats route answers with.
pub open spec fn spec_message(method: Seq<char>, path: Seq<char>) -> Seq<char> {
    match spec_route(method, path) {
        Route::Root => "Welcome to Rust HTTP Server!"@,
        Route::Health => "Server is healthy"@,
        Route::Echo => "Echo: "@ + path.skip(6),
        Route::Stats => Seq::empty(),
        Route::NotFound => "Not Found"@,
    }
}

/// 404 for an unmatched request, 200 for every routed one.
pub open spec fn spec_status(method: Seq<char>, path: Seq<char>) -> u16 {
    if spec_route(method, path) is NotFound {
        404u16
    } else {
        200u16
    }
}

/// The body owed to one request: the statistics body for the stats route
/// (rate text `"0.0"` whenever the uptime is zero), a message body with
/// the route's message for every other route.
pub open spec fn spec_body(
    method: Seq<char>,
    path: Seq<char>,
    total: u64,
    uptime: u64,
    ts: Seq<char>,
    rps: Seq<char>,
) -> Seq<char> {
    if spec_route(method, path) is Stats {
        json_stats_body(total, uptime, if uptime == 0 { "0.0"@ } else { rps })
    } else {
        json_message_body(spec_message(method, path), ts, server_id())
    }
}

/// Builds a response from a status and a finished body: every response,
/// whatever its status, carries the JSON content type and the server
/// identification headers.
pub fn json_response(status: u16, body: String) -> (r: HttpResponse)
    ensures
        r.status == status,
        r.content_type@ == "application/json"@,
        r.server@ == server_id(),
        r.body@ == body@,
{
    HttpResponse {
        status,
        content_type: String::from_str("application/json"),
        server: String::from_str("rust-http-server/1.0"),
        body,
    }
}

pub fn handle_root(timestamp: &str) -> (r: HttpResponse)
    ensures
        r.status == 200,
        r.content_type@ == "application/json"@,
        r.server@ == server_id(),
        r.body@ == json_message_body("Welcome to Rust HTTP Server!"@, timestamp@, server_id()),
{
    let body = message_body("Welcome to Rust HTTP Server!", timestamp, "rust-http-server/1.0");
    json_response(200, body)
}

pub fn handle_health(timestamp: &str) -> (r: HttpResponse)
    ensures
        r.status == 200,
        r.content_type@ == "application/json"@,
        r.server@ == server_id(),
        r.body@ == json_message_body("Server is healthy"@, timestamp@, server_id()),
{
    let body = message_body("Server is healthy", timestamp, "rust-http-server/1.0");
    json_response(200, body)
}

pub fn handle_echo(message: &str, timestamp: &str) -> (r: HttpResponse)
    ensures
        r.status == 200,
        r.content_type@ == "application/json"@,
        r.server@ == server_id(),
        r.body@ == json_message_body("Echo: "@ + message@, timestamp@, server_id()),
{
    let mut msg = String::from_str("Echo: ");
    msg.append(message);
    let body = message_body(msg.as_str(), timestamp, "rust-http-server/1.0");
    json_response(200, body)
}

pub fn handle_not_found(timestamp: &str) -> (r: HttpResponse)
    ensures
        r.status == 404,
        r.content_type@ == "application/json"@,
        r.server@ == server_id(),
        r.body@ == json_message_body("Not Found"@, timestamp@, server_id()),
{
    let body = message_body("Not Found", timestamp, "rust-http-server/1.0");
    json_response(404, body)
}

/// Answers the stats route from a snapshot of the counters; the rate text
/// is `"0.0"` whenever the uptime is zero, else the text given.
pub fn handle_stats(total: u64, uptime: u64, rps_text: &str) -> (r: HttpResponse)
    ensures
        r.status == 200,
        r.content_type@ == "application/json"@,
        r.server@ == server_id(),
        r.body@ == json_stats_body(total, uptime, if uptime == 0 { "0.0"@ } else { rps_text@ }),
{
    let body = if uptime == 0 {
        stats_body(total, uptime, "0.0")
    } else {
        stats_body(total, uptime, rps_text)
    };
    json_response(200, body)
}

/// Dispatches one request to its handler. Every input yields a response:
/// the status, headers and body are pinned for every method and path.
pub fn respond(
    method: &str,
    path: &str,
    total: u64,
    uptime: u64,
    timestamp: &str,
    rps_text: &str,
) -> (r: HttpResponse)
    ensures
        r.status == spec_status(method@, path@),
        r.content_type@ == "application/json"@,
        r.server@ == server_id(),
        r.body@ == spec_body(method@, path@, total, uptime, timestamp@, rps_text@),
{
    let rt = route(method, path);
    match rt {
        Route::Root => handle_root(timestamp),
        Route::Health => handle_health(timestamp),
        Route::Stats => handle_stats(total, uptime, rps_text),
        Route::Echo => {
            let n = path.unicode_len();
            let msg = path.substring_char(6, n);
            proof {
                assert(msg@ =~= path@.skip(6));
            }
            handle_echo(msg, timestamp)
        },
        Route::NotFound => handle_not_found(timestamp),
    }
}

proof fn lemma_wf_concat(a: Seq<char>, b: Seq<char>)
    requires
        wf_text(a),
        wf_text(b),
    ensures
        wf_text(a + b),
{
    assert forall|i: int| 0 <= i < (a + b).len() implies !is_ctl(#[trigger] (a + b)[i]) by {
        if i < a.len() {
            assert((a + b)[i] == a[i]);
        } else {
            assert((a + b)[i] == b[i - a.len()]);
        }
    }
}

/// Every fixed text the service puts in a message field is free of
/// control characters, as is the echoed remainder of a clean path.
proof fn lemma_message_wf(method: Seq<char>, path: Seq<char>)
    requires
        wf_text(path),
    ensures
        wf_text(spec_message(method, path)),
        wf_text(server_id()),
{
    reveal_strlit("Welcome to Rust HTTP Server!");
    reveal_strlit("Server is healthy");
    reveal_strlit("Echo: ");
    reveal_strlit("Not Found");
    reveal_strlit("rust-http-server/1.0");
    assert(wf_text("Welcome to Rust HTTP Server!"@));
    assert(wf_text("Server is healthy"@));
    assert(wf_text("Not Found"@));
    assert(wf_text("rust-http-server/1.0"@));
    assert(wf_text(Seq::<char>::empty()));
    if spec_route(method, path) is Echo {
        assert(wf_text(path.skip(6))) by {
            assert forall|i: int| 0 <= i < path.skip(6).len() implies !is_ctl(
                #[trigger] path.skip(6)[i],
            ) by {
                assert(path.skip(6)[i] == path[i + 6]);
            }
        }
        assert(wf_text("Echo: "@));
        lemma_wf_concat("Echo: "@, path.skip(6));
    }
}

/// Every response body parses back to exactly the entity it was built
/// from: the statistics entity on the stats route, the message entity on
/// every other route — provided the path and the clock's timestamp text
/// are free of control characters, as an HTTP request line and an RFC 3339
/// timestamp always are.
pub proof fn lemma_response_round_trip(
    method: Seq<char>,
    path: Seq<char>,
    total: u64,
    uptime: u64,
    ts: Seq<char>,
    rps: Seq<char>,
)
    requires
        wf_text(path),
        wf_text(ts),
    ensures
        spec_route(method, path) is Stats ==> spec_parse_stats_body(
            spec_body(method, path, total, uptime, ts, rps),
        ) == Some((total, uptime, if uptime == 0 { "0.0"@ } else { rps })),
        !(spec_route(method, path) is Stats) ==> spec_parse_message_body(
            spec_body(method, path, total, uptime, ts, rps),
        ) == Some((spec_message(method, path), ts, server_id())),
{
    if spec_route(method, path) is Stats {
        lemma_stats_round_trip(total, uptime, if uptime == 0 { "0.0"@ } else { rps });
    } else {
        lemma_message_wf(method, path);
        lemma_message_round_trip(spec_message(method, path), ts, server_id());
    }
}

/// Relies on `chrono::Local::now` and `chrono::DateTime::to_rfc3339`: the
/// current local time as RFC 3339 text. A clock reading cannot be pinned by
/// a contract; the RFC 3339 format keeps the text free of control
/// characters.
#[verifier::external_body]
fn now_rfc3339() -> (r: String)
    ensures
        wf_text(r@),
{
    chrono::Local::now().to_rfc3339()
}

/// One full request: counts it, reads the clock, routes, and answers.
/// The count rises by exactly one before dispatch, so even unmatched
/// requests count; whatever timestamp and uptime the clock gave, the
/// response is exactly the one `respond` builds from them.
pub fn handle_request(method: &str, path: &str, stats: &mut ServerStats, rps_text: &str) -> (r:
    HttpResponse)
    requires
        old(stats).total() < u64::MAX,
    ensures
        final(stats).total() == old(stats).total() + 1,
        r.status == spec_status(method@, path@),
        r.content_type@ == "application/json"@,
        r.server@ == server_id(),
        exists|ts: Seq<char>, uptime: u64|
            r.body@ == spec_body(method@, path@, final(stats).total(), uptime, ts, rps_text@),
{
    stats.increment_requests();
    let total = stats.get_total_requests();
    let uptime = stats.get_uptime_seconds();
    let ts = now_rfc3339();
    let r = respond(method, path, total, uptime, ts.as_str(), rps_text);
    proof {
        assert(r.body@ == spec_body(method@, path@, total, uptime, ts@, rps_text@));
    }
    r
}

} // verus!
