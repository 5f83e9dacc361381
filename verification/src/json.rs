//! JSON response bodies: the two fixed shapes the service sends, written and
//! read by the library itself so that both directions carry exact contracts.
//!
//! A body is plain text. String fields are emitted between double quotes,
//! with `"` and `\` escaped by a backslash; control characters never reach a
//! body (the writer's callers keep them out, the reader rejects them).

use vstd::prelude::*;

use crate::num::{
    is_digit, lemma_digits_end_at, lemma_digits_val_of_u64, lemma_u64_digits_are_digits,
    lemma_u64_digits_len, parse_u64_at, pow10, spec_parse_u64, u64_digits, u64_string,
};

verus! {

/// A control character: never emitted raw inside a JSON string literal.
pub open spec fn is_ctl(c: char) -> bool {
    (c as u32) < 32
}

/// Text that may stand in a JSON string field: free of control characters.
pub open spec fn wf_text(s: Seq<char>) -> bool {
    forall|i: int| 0 <= i < s.len() ==> !is_ctl(#[trigger] s[i])
}

/// How one character appears inside a JSON string literal: a quote or a
/// backslash gets a backslash before it; anything else stands as itself.
pub open spec fn escape_char(c: char) -> Seq<char> {
    if c == '"' || c == '\\' {
        seq!['\\', c]
    } else {
        seq![c]
    }
}

/// A whole string field's text, character by character.
pub open spec fn escape_text(s: Seq<char>) -> Seq<char>
    decreases s.len(),
{
    if s.len() == 0 {
        Seq::empty()
    } else {
        escape_char(s[0]) + escape_text(s.skip(1))
    }
}

pub proof fn lemma_escape_text_push(s: Seq<char>, c: char)
    ensures
        escape_text(s.push(c)) == escape_text(s) + escape_char(c),
    decreases s.len(),
{
    if s.len() == 0 {
        assert(s.push(c)[0] == c);
        assert(s.push(c).skip(1) =~= Seq::<char>::empty());
        assert(escape_text(s.push(c)) == escape_char(c) + escape_text(Seq::<char>::empty()));
        assert(escape_text(s.push(c)) =~= escape_text(s) + escape_char(c));
    } else {
        assert(s.push(c).skip(1) =~= s.skip(1).push(c));
        lemma_escape_text_push(s.skip(1), c);
        assert(escape_text(s.push(c)) =~= escape_text(s) + escape_char(c));
    }
}

/// Escapes `s` for use inside a JSON string literal.
pub fn escape_json(s: &str) -> (r: String)
    ensures
        r@ == escape_text(s@),
{
    let n: usize = s.unicode_len();
    let mut out = String::new();
    let mut i: usize = 0;
    while i < n
        invariant
            n == s@.len(),
            i <= n,
            out@ == escape_text(s@.take(i as int)),
        decreases n - i,
    {
        let c = s.get_char(i);
        proof {
            assert(s@.take(i as int).push(c) =~= s@.take(i as int + 1));
            lemma_escape_text_push(s@.take(i as int), c);
        }
        if c == '"' {
            out.append("\\\"");
            proof {
                reveal_strlit("\\\"");
                assert(out@ =~= escape_text(s@.take(i as int + 1)));
            }
        } else if c == '\\' {
            out.append("\\\\");
            proof {
                reveal_strlit("\\\\");
                assert(out@ =~= escape_text(s@.take(i as int + 1)));
            }
        } else {
            let piece = s.substring_char(i, i + 1);
            out.append(piece);
            proof {
                assert(piece@ =~= seq![c]);
                assert(out@ =~= escape_text(s@.take(i as int + 1)));
            }
        }
        i = i + 1;
    }
    proof {
        assert(s@.take(n as int) =~= s@);
    }
    out
}

/// Reads the inside of a JSON string literal of `s` starting at `i`, just
/// past the opening quote: the decoded content and the index just past the
/// closing quote. Rejects raw control characters and unknown escapes.
pub open spec fn scan_content(s: Seq<char>, i: int) -> Option<(Seq<char>, int)>
    decreases s.len() - i,
{
    if i < 0 || i >= s.len() {
        None
    } else if s[i] == '"' {
        Some((Seq::empty(), i + 1))
    } else if s[i] == '\\' {
        if i + 1 < s.len() && (s[i + 1] == '"' || s[i + 1] == '\\') {
            match scan_content(s, i + 2) {
                None => None,
                Some((content, j)) => Some((seq![s[i + 1]] + content, j)),
            }
        } else {
            None
        }
    } else if is_ctl(s[i]) {
        None
    } else {
        match scan_content(s, i + 1) {
            None => None,
            Some((content, j)) => Some((seq![s[i]] + content, j)),
        }
    }
}

/// Scanning an escaped text placed after a prefix, with its closing quote
/// and anything behind it, recovers exactly that text.
pub proof fn lemma_scan_escaped(p: Seq<char>, m: Seq<char>, r: Seq<char>)
    requires
        wf_text(m),
    ensures
        scan_content(p + escape_text(m) + seq!['"'] + r, p.len() as int) == Some(
            (m, p.len() as int + escape_text(m).len() + 1),
        ),
    decreases m.len(),
{
    let s = p + escape_text(m) + seq!['"'] + r;
    if m.len() == 0 {
        assert(escape_text(m) =~= Seq::<char>::empty());
        assert(s[p.len() as int] == '"');
        assert(scan_content(s, p.len() as int) == Some((Seq::<char>::empty(), p.len() as int + 1)));
        assert(Seq::<char>::empty() =~= m);
    } else {
        let c = m[0];
        let m1 = m.skip(1);
        assert(escape_text(m) == escape_char(c) + escape_text(m1));
        assert forall|k: int| 0 <= k < m1.len() implies !is_ctl(#[trigger] m1[k]) by {
            assert(m1[k] == m[k + 1]);
        }
        if c == '"' || c == '\\' {
            let p2 = p + seq!['\\', c];
            assert(s =~= p2 + escape_text(m1) + seq!['"'] + r);
            lemma_scan_escaped(p2, m1, r);
            assert(scan_content(s, p.len() as int + 2) == Some(
                (m1, p.len() as int + 2 + escape_text(m1).len() + 1),
            ));
            assert(s[p.len() as int] == '\\');
            assert(s[p.len() as int + 1] == c);
            assert(seq![s[p.len() as int + 1]] + m1 =~= m);
            assert(scan_content(s, p.len() as int) == Some(
                (m, p.len() as int + escape_text(m).len() + 1),
            ));
        } else {
            let p2 = p + seq![c];
            assert(s =~= p2 + escape_text(m1) + seq!['"'] + r);
            lemma_scan_escaped(p2, m1, r);
            assert(scan_content(s, p.len() as int + 1) == Some(
                (m1, p.len() as int + 1 + escape_text(m1).len() + 1),
            ));
            assert(s[p.len() as int] == c);
            assert(!is_ctl(m[0]));
            assert(seq![s[p.len() as int]] + m1 =~= m);
            assert(scan_content(s, p.len() as int) == Some(
                (m, p.len() as int + escape_text(m).len() + 1),
            ));
        }
    }
}

/// Prepends already-read text to the content of a scan further right.
pub open spec fn prepend_content(p: Seq<char>, r: Option<(Seq<char>, int)>) -> Option<
    (Seq<char>, int),
> {
    match r {
        None => None,
        Some((content, j)) => Some((p + content, j)),
    }
}

proof fn lemma_prepend_content_empty(r: Option<(Seq<char>, int)>)
    ensures
        prepend_content(Seq::empty(), r) == r,
{
    match r {
        None => {},
        Some((content, j)) => {
            assert(Seq::empty() + content =~= content);
        },
    }
}

proof fn lemma_prepend_content_assoc(p1: Seq<char>, p2: Seq<char>, r: Option<(Seq<char>, int)>)
    ensures
        prepend_content(p1, prepend_content(p2, r)) == prepend_content(p1 + p2, r),
{
    match r {
        None => {},
        Some((content, j)) => {
            assert(p1 + (p2 + content) =~= (p1 + p2) + content);
        },
    }
}

/// Reads a JSON string literal's content from `s`, starting just past the
/// opening quote; on success also gives the index just past the closing
/// quote.
fn scan_string(s: &str, n: usize, start: usize) -> (r: Option<(String, usize)>)
    requires
        n == s@.len(),
        start <= n,
    ensures
        match r {
            Some(pair) => scan_content(s@, start as int) == Some((pair.0@, pair.1 as int))
                && start < pair.1 <= n,
            None => scan_content(s@, start as int) is None,
        },
{
    let mut out = String::new();
    let mut i: usize = start;
    proof {
        lemma_prepend_content_empty(scan_content(s@, start as int));
    }
    loop
        invariant
            n == s@.len(),
            start <= i <= n,
            scan_content(s@, start as int) == prepend_content(out@, scan_content(s@, i as int)),
        decreases n - i,
    {
        if i >= n {
            return None;
        }
        let c = s.get_char(i);
        if c == '"' {
            proof {
                assert(out@ + Seq::<char>::empty() =~= out@);
            }
            return Some((out, i + 1));
        }
        if c == '\\' {
            if i + 1 >= n {
                return None;
            }
            let c2 = s.get_char(i + 1);
            if c2 == '"' || c2 == '\\' {
                let piece = s.substring_char(i + 1, i + 2);
                proof {
                    assert(piece@ =~= seq![s@[i as int + 1]]);
                    lemma_prepend_content_assoc(
                        out@,
                        seq![s@[i as int + 1]],
                        scan_content(s@, i as int + 2),
                    );
                }
                out.append(piece);
                i = i + 2;
            } else {
                return None;
            }
        } else if (c as u32) < 32 {
            return None;
        } else {
            let piece = s.substring_char(i, i + 1);
            proof {
                assert(piece@ =~= seq![s@[i as int]]);
                lemma_prepend_content_assoc(
                    out@,
                    seq![s@[i as int]],
                    scan_content(s@, i as int + 1),
                );
            }
            out.append(piece);
            i = i + 1;
        }
    }
}

/// Whether the text `lit` stands in `s` at position `i`.
pub open spec fn lit_at(s: Seq<char>, i: int, lit: Seq<char>) -> bool {
    0 <= i && i + lit.len() <= s.len() && s.subrange(i, i + lit.len()) == lit
}

pub(crate) fn match_lit(s: &str, n: usize, i: usize, lit: &str) -> (b: bool)
    requires
        n == s@.len(),
        i <= n,
    ensures
        b == lit_at(s@, i as int, lit@),
{
    let m = lit.unicode_len();
    if m > n - i {
        return false;
    }
    let mut k: usize = 0;
    while k < m
        invariant
            n == s@.len(),
            m == lit@.len(),
            i + m <= n,
            k <= m,
            forall|t: int| 0 <= t < k ==> s@[i + t] == #[trigger] lit@[t],
        decreases m - k,
    {
        let a = s.get_char(i + k);
        let b = lit.get_char(k);
        if a != b {
            proof {
                assert(s@.subrange(i as int, i as int + lit@.len() as int)[k as int] == s@[i as int
                    + k as int]);
            }
            return false;
        }
        k = k + 1;
    }
    proof {
        assert(s@.subrange(i as int, i as int + lit@.len() as int) =~= lit@);
    }
    true
}

/// The message-shaped body: `{"message":M,"timestamp":T,"server":S}` with
/// the three fields as escaped JSON string literals, in exactly that order.
pub open spec fn json_message_body(msg: Seq<char>, ts: Seq<char>, srv: Seq<char>) -> Seq<char> {
    "{\"message\":\""@ + escape_text(msg) + "\",\"timestamp\":\""@ + escape_text(ts)
        + "\",\"server\":\""@ + escape_text(srv) + "\"}"@
}

/// Builds the message-shaped body from its three fields.
pub fn message_body(msg: &str, ts: &str, srv: &str) -> (r: String)
    ensures
        r@ == json_message_body(msg@, ts@, srv@),
{
    let mut out = String::from_str("{\"message\":\"");
    let em = escape_json(msg);
    out.append(em.as_str());
    out.append("\",\"timestamp\":\"");
    let et = escape_json(ts);
    out.append(et.as_str());
    out.append("\",\"server\":\"");
    let es = escape_json(srv);
    out.append(es.as_str());
    out.append("\"}");
    proof {
        assert(out@ =~= json_message_body(msg@, ts@, srv@));
    }
    out
}

/// A message-shaped response entity: the three string fields carried by
/// every body except the statistics one.
pub struct JsonResponse {
    pub message: String,
    pub timestamp: String,
    pub server: String,
}

/// Reads a message-shaped body: the exact key order the writer uses, each
/// value a JSON string literal, nothing before or after.
pub open spec fn spec_parse_message_body(s: Seq<char>) -> Option<
    (Seq<char>, Seq<char>, Seq<char>),
> {
    if !lit_at(s, 0, "{\"message\":\""@) {
        None
    } else {
        match scan_content(s, "{\"message\":\""@.len() as int) {
            None => None,
            Some((msg, j1)) => if !lit_at(s, j1, ",\"timestamp\":\""@) {
                None
            } else {
                match scan_content(s, j1 + ",\"timestamp\":\""@.len()) {
                    None => None,
                    Some((ts, j2)) => if !lit_at(s, j2, ",\"server\":\""@) {
                        None
                    } else {
                        match scan_content(s, j2 + ",\"server\":\""@.len()) {
                            None => None,
                            Some((srv, j3)) => if j3 + 1 == s.len() && s[j3] == '}' {
                                Some((msg, ts, srv))
                            } else {
                                None
                            },
                        }
                    },
                }
            },
        }
    }
}

/// Parses a message-shaped body back into its three fields.
pub fn parse_message_body(s: &str) -> (r: Option<JsonResponse>)
    ensures
        match r {
            Some(v) => spec_parse_message_body(s@) == Some((v.message@, v.timestamp@, v.server@)),
            None => spec_parse_message_body(s@) is None,
        },
{
    let n = s.unicode_len();
    let k1 = "{\"message\":\"";
    if !match_lit(s, n, 0, k1) {
        return None;
    }
    let i1 = k1.unicode_len();
    let r1 = scan_string(s, n, i1);
    match r1 {
        None => None,
        Some((msg, j1)) => {
            let k2 = ",\"timestamp\":\"";
            if !match_lit(s, n, j1, k2) {
                return None;
            }
            let i2 = j1 + k2.unicode_len();
            let r2 = scan_string(s, n, i2);
            match r2 {
                None => None,
                Some((ts, j2)) => {
                    let k3 = ",\"server\":\"";
                    if !match_lit(s, n, j2, k3) {
                        return None;
                    }
                    let i3 = j2 + k3.unicode_len();
                    let r3 = scan_string(s, n, i3);
                    match r3 {
                        None => None,
                        Some((srv, j3)) => {
                            if n - j3 == 1 && s.get_char(j3) == '}' {
                                Some(JsonResponse { message: msg, timestamp: ts, server: srv })
                            } else {
                                None
                            }
                        },
                    }
                },
            }
        },
    }
}

proof fn lemma_lit_at_concat(p: Seq<char>, lit: Seq<char>, r: Seq<char>)
    ensures
        lit_at(p + lit + r, p.len() as int, lit),
{
    let s = p + lit + r;
    assert(s.subrange(p.len() as int, p.len() as int + lit.len() as int) =~= lit);
}

/// Writing a message body and reading it back yields the same three
/// fields, for any fields free of control characters.
pub proof fn lemma_message_round_trip(msg: Seq<char>, ts: Seq<char>, srv: Seq<char>)
    requires
        wf_text(msg),
        wf_text(ts),
        wf_text(srv),
    ensures
        spec_parse_message_body(json_message_body(msg, ts, srv)) == Some((msg, ts, srv)),
{
    let k1 = "{\"message\":\""@;
    let k2 = ",\"timestamp\":\""@;
    let k3 = ",\"server\":\""@;
    let s = json_message_body(msg, ts, srv);
    reveal_strlit("{\"message\":\"");
    reveal_strlit("\",\"timestamp\":\"");
    reveal_strlit(",\"timestamp\":\"");
    reveal_strlit("\",\"server\":\"");
    reveal_strlit(",\"server\":\"");
    reveal_strlit("\"}");
    assert("\",\"timestamp\":\""@ =~= seq!['"'] + k2);
    assert("\",\"server\":\""@ =~= seq!['"'] + k3);
    assert("\"}"@ =~= seq!['"'] + seq!['}']);
    let e1 = escape_text(msg);
    let e2 = escape_text(ts);
    let e3 = escape_text(srv);
    let r1 = k2 + e2 + seq!['"'] + k3 + e3 + seq!['"'] + seq!['}'];
    let r2 = k3 + e3 + seq!['"'] + seq!['}'];
    let r3 = seq!['}'];
    assert(s =~= k1 + e1 + seq!['"'] + r1);
    // the opening key
    lemma_lit_at_concat(Seq::empty(), k1, e1 + seq!['"'] + r1);
    assert(Seq::<char>::empty() + k1 + (e1 + seq!['"'] + r1) =~= s);
    assert(lit_at(s, 0, k1));
    // the message field
    lemma_scan_escaped(k1, msg, r1);
    assert(k1 + e1 + seq!['"'] + r1 =~= s);
    let j1 = k1.len() as int + e1.len() + 1;
    assert(scan_content(s, k1.len() as int) == Some((msg, j1)));
    // the timestamp key and field
    let p2 = k1 + e1 + seq!['"'];
    assert(p2.len() == j1);
    lemma_lit_at_concat(p2, k2, e2 + seq!['"'] + r2);
    assert(p2 + k2 + (e2 + seq!['"'] + r2) =~= s);
    assert(lit_at(s, j1, k2));
    let p2b = p2 + k2;
    lemma_scan_escaped(p2b, ts, r2);
    assert(p2b + e2 + seq!['"'] + r2 =~= s);
    let j2 = p2b.len() as int + e2.len() + 1;
    assert(scan_content(s, j1 + k2.len()) == Some((ts, j2)));
    // the server key and field
    let p3 = p2b + e2 + seq!['"'];
    assert(p3.len() == j2);
    lemma_lit_at_concat(p3, k3, e3 + seq!['"'] + r3);
    assert(p3 + k3 + (e3 + seq!['"'] + r3) =~= s);
    assert(lit_at(s, j2, k3));
    let p3b = p3 + k3;
    lemma_scan_escaped(p3b, srv, r3);
    assert(p3b + e3 + seq!['"'] + r3 =~= s);
    let j3 = p3b.len() as int + e3.len() + 1;
    assert(scan_content(s, j2 + k3.len()) == Some((srv, j3)));
    // the closing brace
    assert(j3 + 1 == s.len());
    assert(s[j3] == '}');
}

/// The statistics body:
/// `{"total_requests":T,"uptime_seconds":U,"requests_per_second":R}` with
/// the two counters in decimal and the rate's text `R` standing verbatim.
pub open spec fn json_stats_body(total: u64, uptime: u64, rps: Seq<char>) -> Seq<char> {
    "{\"total_requests\":"@ + u64_digits(total as nat) + ",\"uptime_seconds\":"@ + u64_digits(
        uptime as nat,
    ) + ",\"requests_per_second\":"@ + rps + "}"@
}

/// Builds the statistics body from the two counters and the rate's text.
pub fn stats_body(total: u64, uptime: u64, rps: &str) -> (r: String)
    ensures
        r@ == json_stats_body(total, uptime, rps@),
{
    let mut out = String::from_str("{\"total_requests\":");
    let d1 = u64_string(total);
    out.append(d1.as_str());
    out.append(",\"uptime_seconds\":");
    let d2 = u64_string(uptime);
    out.append(d2.as_str());
    out.append(",\"requests_per_second\":");
    out.append(rps);
    out.append("}");
    proof {
        assert(out@ =~= json_stats_body(total, uptime, rps@));
    }
    out
}

/// The statistics entity. The request rate is a ratio of the two counters,
/// computed in floating point outside the library; here it is carried as
/// its decimal text, verbatim.
pub struct StatsResponse {
    pub total_requests: u64,
    pub uptime_seconds: u64,
    pub requests_per_second: String,
}

/// Reads a statistics body: the exact key order the writer uses, the two
/// counters as digit runs, the rate as everything up to the closing brace.
pub open spec fn spec_parse_stats_body(s: Seq<char>) -> Option<(u64, u64, Seq<char>)> {
    if !lit_at(s, 0, "{\"total_requests\":"@) {
        None
    } else {
        match spec_parse_u64(s, "{\"total_requests\":"@.len() as int) {
            None => None,
            Some((total, j1)) => if !lit_at(s, j1, ",\"uptime_seconds\":"@) {
                None
            } else {
                match spec_parse_u64(s, j1 + ",\"uptime_seconds\":"@.len()) {
                    None => None,
                    Some((uptime, j2)) => if !lit_at(s, j2, ",\"requests_per_second\":"@) {
                        None
                    } else {
                        let k = j2 + ",\"requests_per_second\":"@.len();
                        if k + 1 <= s.len() && s[s.len() - 1] == '}' {
                            Some((total, uptime, s.subrange(k, s.len() - 1)))
                        } else {
                            None
                        }
                    },
                }
            },
        }
    }
}

/// Parses a statistics body back into its entity.
pub fn parse_stats_body(s: &str) -> (r: Option<StatsResponse>)
    ensures
        match r {
            Some(v) => spec_parse_stats_body(s@) == Some(
                (v.total_requests, v.uptime_seconds, v.requests_per_second@),
            ),
            None => spec_parse_stats_body(s@) is None,
        },
{
    let n = s.unicode_len();
    let k1 = "{\"total_requests\":";
    if !match_lit(s, n, 0, k1) {
        return None;
    }
    let i1 = k1.unicode_len();
    match parse_u64_at(s, n, i1) {
        None => None,
        Some((total, j1)) => {
            let k2 = ",\"uptime_seconds\":";
            if !match_lit(s, n, j1, k2) {
                return None;
            }
            let i2 = j1 + k2.unicode_len();
            match parse_u64_at(s, n, i2) {
                None => None,
                Some((uptime, j2)) => {
                    let k3 = ",\"requests_per_second\":";
                    if !match_lit(s, n, j2, k3) {
                        return None;
                    }
                    let i3 = j2 + k3.unicode_len();
                    if i3 < n && s.get_char(n - 1) == '}' {
                        let rps = s.substring_char(i3, n - 1);
                        Some(
                            StatsResponse {
                                total_requests: total,
                                uptime_seconds: uptime,
                                requests_per_second: String::from_str(rps),
                            },
                        )
                    } else {
                        None
                    }
                },
            }
        },
    }
}

/// Writing a statistics body and reading it back yields the same two
/// counters and the same rate text, whatever that text is.
pub proof fn lemma_stats_round_trip(total: u64, uptime: u64, rps: Seq<char>)
    ensures
        spec_parse_stats_body(json_stats_body(total, uptime, rps)) == Some((total, uptime, rps)),
{
    let k1 = "{\"total_requests\":"@;
    let k2 = ",\"uptime_seconds\":"@;
    let k3 = ",\"requests_per_second\":"@;
    let d1 = u64_digits(total as nat);
    let d2 = u64_digits(uptime as nat);
    let s = json_stats_body(total, uptime, rps);
    reveal_strlit("{\"total_requests\":");
    reveal_strlit(",\"uptime_seconds\":");
    reveal_strlit(",\"requests_per_second\":");
    reveal_strlit("}");
    assert("}"@ =~= seq!['}']);
    lemma_u64_digits_are_digits(total as nat);
    lemma_u64_digits_are_digits(uptime as nat);
    reveal_with_fuel(pow10, 21);
    assert(pow10(20) == 100000000000000000000);
    lemma_u64_digits_len(total as nat, 20);
    lemma_u64_digits_len(uptime as nat, 20);
    lemma_digits_val_of_u64(total as nat);
    lemma_digits_val_of_u64(uptime as nat);
    let r1 = k2 + d2 + k3 + rps + seq!['}'];
    let r2 = k3 + rps + seq!['}'];
    assert(s =~= k1 + d1 + r1);
    // the first key and counter
    lemma_lit_at_concat(Seq::empty(), k1, d1 + r1);
    assert(Seq::<char>::empty() + k1 + (d1 + r1) =~= s);
    assert(lit_at(s, 0, k1));
    let j1 = k1.len() as int + d1.len();
    assert forall|t: int| k1.len() <= t < j1 implies is_digit(#[trigger] s[t]) by {
        assert(s[t] == d1[t - k1.len()]);
    }
    assert(s[j1] == k2[0]);
    assert(!is_digit(','));
    lemma_digits_end_at(s, k1.len() as int, j1);
    assert(s.subrange(k1.len() as int, j1) =~= d1);
    assert(spec_parse_u64(s, k1.len() as int) == Some((total, j1)));
    // the second key and counter
    let p2 = k1 + d1;
    assert(p2.len() == j1);
    lemma_lit_at_concat(p2, k2, d2 + r2);
    assert(p2 + k2 + (d2 + r2) =~= s);
    assert(lit_at(s, j1, k2));
    let p3 = p2 + k2;
    let j2 = p3.len() as int + d2.len();
    assert forall|t: int| p3.len() <= t < j2 implies is_digit(#[trigger] s[t]) by {
        assert(s[t] == d2[t - p3.len()]);
    }
    assert(s[j2] == k3[0]);
    lemma_digits_end_at(s, p3.len() as int, j2);
    assert(s.subrange(p3.len() as int, j2) =~= d2);
    assert(spec_parse_u64(s, j1 + k2.len()) == Some((uptime, j2)));
    // the rate key, the rate text, the closing brace
    let p4 = p3 + d2;
    assert(p4.len() == j2);
    lemma_lit_at_concat(p4, k3, rps + seq!['}']);
    assert(p4 + k3 + (rps + seq!['}']) =~= s);
    assert(lit_at(s, j2, k3));
    let k = j2 + k3.len() as int;
    assert(s.len() == k + rps.len() + 1);
    assert(s[s.len() - 1] == '}');
    assert(s.subrange(k, s.len() - 1) =~= rps);
}

} // verus!
