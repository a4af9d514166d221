//! The plain-text command profile: exact-string request routing.
//!
//! A bidirectional stream in this profile carries one trimmed UTF-8
//! command line.  Routing is exact-string dispatch over a fixed command
//! set: the stats query gets the connection's channel counters as a JSON
//! object, everything else the fixed error object.  No prefix, wildcard
//! or case-insensitive matching.

use crate::stats::ChannelStats;
use vstd::prelude::*;
use vstd::string::StringExecFns;

verus! {

/// Exact equality of two string slices.
pub fn str_eq(a: &str, b: &str) -> (r: bool)
    ensures
        r == (a@ == b@),
{
    let ab = a.as_bytes();
    let bb = b.as_bytes();
    let r = crate::bytes::bytes_eq(ab, bb);
    proof {
        if ab@ == bb@ {
            vstd::utf8::encode_utf8_decode_utf8(a@);
            vstd::utf8::encode_utf8_decode_utf8(b@);
        }
    }
    r
}

/// The decimal digit `d` as a character.
pub open spec fn dec_digit_char(d: nat) -> char {
    if d == 0 {
        '0'
    } else if d == 1 {
        '1'
    } else if d == 2 {
        '2'
    } else if d == 3 {
        '3'
    } else if d == 4 {
        '4'
    } else if d == 5 {
        '5'
    } else if d == 6 {
        '6'
    } else if d == 7 {
        '7'
    } else if d == 8 {
        '8'
    } else {
        '9'
    }
}

/// The decimal digits of `n`, most significant first, no leading zeros.
pub open spec fn dec_chars(n: nat) -> Seq<char>
    decreases n,
{
    if n < 10 {
        seq![dec_digit_char(n)]
    } else {
        dec_chars(n / 10) + seq![dec_digit_char(n % 10)]
    }
}

fn digit_str(d: u64) -> (r: &'static str)
    requires
        d < 10,
    ensures
        r@ =~= seq![dec_digit_char(d as nat)],
{
    proof {
        reveal_strlit("0");
        reveal_strlit("1");
        reveal_strlit("2");
        reveal_strlit("3");
        reveal_strlit("4");
        reveal_strlit("5");
        reveal_strlit("6");
        reveal_strlit("7");
        reveal_strlit("8");
        reveal_strlit("9");
    }
    if d == 0 {
        "0"
    } else if d == 1 {
        "1"
    } else if d == 2 {
        "2"
    } else if d == 3 {
        "3"
    } else if d == 4 {
        "4"
    } else if d == 5 {
        "5"
    } else if d == 6 {
        "6"
    } else if d == 7 {
        "7"
    } else if d == 8 {
        "8"
    } else {
        "9"
    }
}

/// `n` written in decimal.
pub fn u64_to_string(n: u64) -> (r: String)
    ensures
        r@ == dec_chars(n as nat),
    decreases n,
{
    if n < 10 {
        String::from_str(digit_str(n))
    } else {
        let mut s = u64_to_string(n / 10);
        s.append(digit_str(n % 10));
        assert(s@ =~= dec_chars(n as nat));
        s
    }
}

/// The stats reply: `{"bi_streams":N,"uni_streams":M,"datagrams":K}`.
pub open spec fn spec_stats_json(bi: u64, uni: u64, dgram: u64) -> Seq<char> {
    ("{\"bi_streams\":")@ + dec_chars(bi as nat) + (",\"uni_streams\":")@ + dec_chars(uni as nat)
        + (",\"datagrams\":")@ + dec_chars(dgram as nat) + ("}")@
}

/// Formats a snapshot of the counters as the stats reply.
pub fn stats_json(stats: &ChannelStats) -> (r: String)
    ensures
        r@ == spec_stats_json(stats.bi_streams, stats.uni_streams, stats.datagrams),
{
    let mut s = String::from_str("{\"bi_streams\":");
    let bi = u64_to_string(stats.bi_streams);
    s.append(bi.as_str());
    s.append(",\"uni_streams\":");
    let uni = u64_to_string(stats.uni_streams);
    s.append(uni.as_str());
    s.append(",\"datagrams\":");
    let dgram = u64_to_string(stats.datagrams);
    s.append(dgram.as_str());
    s.append("}");
    s
}

/// What a command line deserves: the stats reply for the exact stats
/// command, the fixed error object for everything else.
pub open spec fn spec_api_response(cmd: Seq<char>, bi: u64, uni: u64, dgram: u64) -> Seq<char> {
    if cmd == ("GET /transport/stats")@ {
        spec_stats_json(bi, uni, dgram)
    } else {
        ("{\"error\":\"unknown endpoint\"}")@
    }
}

/// Routes one trimmed command line.  `GET /transport/stats` — and only
/// that exact string — reports the connection's counters; any other
/// input yields exactly `{"error":"unknown endpoint"}`.
pub fn handle_api_request(input: &str, stats: &ChannelStats) -> (r: String)
    ensures
        r@ == spec_api_response(
            input@,
            stats.bi_streams,
            stats.uni_streams,
            stats.datagrams,
        ),
{
    if str_eq(input, "GET /transport/stats") {
        stats_json(stats)
    } else {
        String::from_str("{\"error\":\"unknown endpoint\"}")
    }
}

} // verus!
