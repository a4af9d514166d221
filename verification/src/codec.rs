//! The message codec for the structured query profile.
//!
//! A query request travels as one UTF-8 JSON message of the exact shape
//! `{"type":<string>,"requestId":<uint64>,"key":<string>}`; the reply as
//! `{"requestId":<uint64>,"found":<bool>,"data":<value-or-null>}`.  The
//! decoder accepts the canonical form of the request: fields in this
//! order, no padding around the punctuation, strings of printable ASCII
//! without escapes, and a `requestId` written without leading zeros that
//! fits an unsigned 64-bit integer.  Anything else is a decode failure,
//! which the stream handler answers with silence.

use vstd::prelude::*;

verus! {

/// A decoded query request.
pub struct QueryRequest {
    pub msg_type: Vec<u8>,
    pub request_id: u64,
    pub key: Vec<u8>,
}

/// The mathematical content of a query request.
pub ghost struct QueryRequestView {
    pub msg_type: Seq<u8>,
    pub request_id: u64,
    pub key: Seq<u8>,
}

impl View for QueryRequest {
    type V = QueryRequestView;

    open spec fn view(&self) -> QueryRequestView {
        QueryRequestView {
            msg_type: self.msg_type@,
            request_id: self.request_id,
            key: self.key@,
        }
    }
}

/// An ASCII decimal digit.
pub open spec fn is_digit(b: u8) -> bool {
    0x30 <= b <= 0x39
}

/// A byte the decoder accepts inside a JSON string: printable ASCII, no
/// quote, no backslash.
pub open spec fn is_content_byte(b: u8) -> bool {
    0x20 <= b <= 0x7e && b != 0x22 && b != 0x5c
}

/// `{"type":"`
pub open spec fn lit_request_pre() -> Seq<u8> {
    seq![0x7bu8, 0x22u8, 0x74u8, 0x79u8, 0x70u8, 0x65u8, 0x22u8, 0x3au8, 0x22u8]
}

/// `","requestId":`
pub open spec fn lit_request_mid() -> Seq<u8> {
    seq![0x22u8, 0x2cu8, 0x22u8, 0x72u8, 0x65u8, 0x71u8, 0x75u8, 0x65u8, 0x73u8, 0x74u8, 0x49u8, 0x64u8, 0x22u8, 0x3au8]
}

/// `,"key":"`
pub open spec fn lit_request_key() -> Seq<u8> {
    seq![0x2cu8, 0x22u8, 0x6bu8, 0x65u8, 0x79u8, 0x22u8, 0x3au8, 0x22u8]
}

/// `"}`
pub open spec fn lit_request_suf() -> Seq<u8> {
    seq![0x22u8, 0x7du8]
}

/// `lit` stands in `b` at position `i`.
pub open spec fn matches_at(b: Seq<u8>, i: int, lit: Seq<u8>) -> bool {
    0 <= i && i + lit.len() <= b.len() && b.subrange(i, i + lit.len()) == lit
}

/// The position of the closing quote of a string that starts at `i`, or
/// `None` when a byte before the next quote is not accepted content or
/// the message ends first.
pub open spec fn scan_content(b: Seq<u8>, i: int) -> Option<int>
    decreases b.len() - i when 0 <= i <= b.len()
{
    if i >= b.len() {
        None
    } else if b[i] == 0x22 {
        Some(i)
    } else if is_content_byte(b[i]) {
        scan_content(b, i + 1)
    } else {
        None
    }
}

/// The end of the run of decimal digits that starts at `i`.
pub open spec fn digit_run_end(b: Seq<u8>, i: int) -> int
    decreases b.len() - i when 0 <= i <= b.len()
{
    if i >= b.len() {
        i
    } else if is_digit(b[i]) {
        digit_run_end(b, i + 1)
    } else {
        i
    }
}

/// The number the digits `b[i..j)` spell, most significant first.
pub open spec fn digits_value(b: Seq<u8>, i: int, j: int) -> nat
    decreases j - i when i <= j
{
    if j <= i {
        0
    } else {
        digits_value(b, i, j - 1) * 10 + (b[j - 1] - 0x30) as nat
    }
}

/// What the decoder accepts: the canonical request shape, or nothing.
pub open spec fn spec_decode_query(b: Seq<u8>) -> Option<QueryRequestView> {
    if !matches_at(b, 0, lit_request_pre()) {
        None
    } else {
        let t_start = lit_request_pre().len() as int;
        match scan_content(b, t_start) {
            None => None,
            Some(t_end) => if !matches_at(b, t_end, lit_request_mid()) {
                None
            } else {
                let d_start = t_end + lit_request_mid().len();
                let d_end = digit_run_end(b, d_start);
                if d_end == d_start || (b[d_start] == 0x30 && d_end > d_start + 1)
                    || digits_value(b, d_start, d_end) > u64::MAX {
                    None
                } else if !matches_at(b, d_end, lit_request_key()) {
                    None
                } else {
                    let k_start = d_end + lit_request_key().len();
                    match scan_content(b, k_start) {
                        None => None,
                        Some(k_end) => if !matches_at(b, k_end, lit_request_suf()) {
                            None
                        } else if k_end + lit_request_suf().len() != b.len() {
                            None
                        } else {
                            Some(
                                QueryRequestView {
                                    msg_type: b.subrange(t_start, t_end),
                                    request_id: digits_value(b, d_start, d_end) as u64,
                                    key: b.subrange(k_start, k_end),
                                },
                            )
                        },
                    }
                }
            },
        }
    }
}

/// Every byte of `s` is accepted string content.
pub open spec fn all_content(s: Seq<u8>) -> bool {
    forall|i: int| 0 <= i < s.len() ==> is_content_byte(#[trigger] s[i])
}

/// The canonical encoding of a request: the one shape the decoder
/// accepts.
pub open spec fn spec_encode_query(q: QueryRequestView) -> Seq<u8> {
    lit_request_pre() + q.msg_type + lit_request_mid() + spec_dec(q.request_id as nat)
        + lit_request_key() + q.key + lit_request_suf()
}

proof fn lemma_scan_content_region(b: Seq<u8>, i: int, e: int)
    requires
        0 <= i <= e < b.len(),
        forall|x: int| i <= x < e ==> is_content_byte(#[trigger] b[x]),
        b[e] == 0x22,
    ensures
        scan_content(b, i) == Some(e),
    decreases e - i,
{
    if i < e {
        lemma_scan_content_region(b, i + 1, e);
    }
}

proof fn lemma_digit_run_region(b: Seq<u8>, i: int, e: int)
    requires
        0 <= i <= e <= b.len(),
        forall|x: int| i <= x < e ==> is_digit(#[trigger] b[x]),
        e == b.len() || !is_digit(b[e]),
    ensures
        digit_run_end(b, i) == e,
    decreases e - i,
{
    if i < e {
        lemma_digit_run_region(b, i + 1, e);
    }
}

proof fn lemma_digits_value_shift(b: Seq<u8>, i: int, j: int, c: Seq<u8>)
    requires
        0 <= i <= j <= b.len(),
        j - i <= c.len(),
        forall|x: int| 0 <= x < j - i ==> b[i + x] == c[x],
    ensures
        digits_value(b, i, j) == digits_value(c, 0, j - i),
    decreases j - i,
{
    if i < j {
        lemma_digits_value_shift(b, i, j - 1, c);
        assert(b[i + (j - i - 1)] == c[j - i - 1]);
    }
}

proof fn lemma_digit_run_end_bounds(b: Seq<u8>, i: int)
    requires
        0 <= i <= b.len(),
    ensures
        i <= digit_run_end(b, i) <= b.len(),
    decreases b.len() - i,
{
    if i < b.len() && is_digit(b[i]) {
        lemma_digit_run_end_bounds(b, i + 1);
    }
}

proof fn lemma_digits_value_mono(b: Seq<u8>, i: int, j: int, k: int)
    requires
        i <= j <= k,
    ensures
        digits_value(b, i, j) <= digits_value(b, i, k),
    decreases k - j,
{
    if j < k {
        lemma_digits_value_mono(b, i, j, k - 1);
    }
}

fn match_lit(msg: &[u8], i: usize, lit: &[u8]) -> (r: bool)
    ensures
        r == matches_at(msg@, i as int, lit@),
{
    let m = lit.len();
    let n = msg.len();
    if n < m || i > n - m {
        return false;
    }
    let mut j: usize = 0;
    while j < m
        invariant
            m == lit@.len(),
            n == msg@.len(),
            i + m <= n,
            j <= m,
            forall|x: int| 0 <= x < j ==> msg@[i + x] == lit@[x],
        decreases m - j,
    {
        if msg[i + j] != lit[j] {
            assert(msg@.subrange(i as int, i + m)[j as int] != lit@[j as int]);
            return false;
        }
        j += 1;
    }
    proof {
        assert(msg@.subrange(i as int, i + m) =~= lit@);
    }
    true
}

fn scan_string_end(msg: &[u8], start: usize) -> (r: Option<usize>)
    requires
        start <= msg@.len(),
    ensures
        match r {
            Some(e) => scan_content(msg@, start as int) == Some(e as int) && start <= e
                < msg@.len(),
            None => scan_content(msg@, start as int) is None,
        },
{
    let n = msg.len();
    let mut i: usize = start;
    while i < n
        invariant
            n == msg@.len(),
            start <= i <= n,
            scan_content(msg@, start as int) == scan_content(msg@, i as int),
        decreases n - i,
    {
        let c = msg[i];
        if c == 0x22 {
            return Some(i);
        }
        if !(0x20 <= c && c <= 0x7e && c != 0x5c) {
            return None;
        }
        i += 1;
    }
    None
}

fn scan_number(msg: &[u8], start: usize) -> (r: Option<(u64, usize)>)
    requires
        start <= msg@.len(),
    ensures
        ({
            let de = digit_run_end(msg@, start as int);
            match r {
                Some(p) => p.1 == de && start < de <= msg@.len() && !(msg@[start as int] == 0x30
                    && de > start + 1) && p.0 == digits_value(msg@, start as int, de),
                None => de == start || (msg@[start as int] == 0x30 && de > start + 1)
                    || digits_value(msg@, start as int, de) > u64::MAX,
            }
        }),
{
    let n = msg.len();
    let ghost de = digit_run_end(msg@, start as int);
    proof {
        lemma_digit_run_end_bounds(msg@, start as int);
    }
    let mut i: usize = start;
    let mut v: u64 = 0;
    loop
        invariant
            n == msg@.len(),
            start <= i <= n,
            de == digit_run_end(msg@, start as int),
            digit_run_end(msg@, i as int) == de,
            i <= de,
            v == digits_value(msg@, start as int, i as int),
        ensures
            i == de,
            v == digits_value(msg@, start as int, de),
            start <= i <= n,
            n == msg@.len(),
        decreases n - i,
    {
        if i >= n || !(0x30 <= msg[i] && msg[i] <= 0x39) {
            proof {
                assert(digit_run_end(msg@, i as int) == i);
            }
            break;
        }
        let d = msg[i] - 0x30;
        proof {
            lemma_digit_run_end_bounds(msg@, i + 1);
        }
        let v10 = match v.checked_mul(10) {
            Some(x) => x,
            None => {
                proof {
                    lemma_digits_value_mono(msg@, start as int, i + 1, de);
                }
                return None;
            },
        };
        let nv = match v10.checked_add(d as u64) {
            Some(x) => x,
            None => {
                proof {
                    lemma_digits_value_mono(msg@, start as int, i + 1, de);
                }
                return None;
            },
        };
        v = nv;
        i += 1;
    }
    if i == start {
        return None;
    }
    if msg[start] == 0x30 && i > start + 1 {
        return None;
    }
    Some((v, i))
}

fn lit_pre_vec() -> (r: Vec<u8>)
    ensures
        r@ == lit_request_pre(),
{
    let mut v: Vec<u8> = Vec::new();
    v.push(0x7bu8);
    v.push(0x22u8);
    v.push(0x74u8);
    v.push(0x79u8);
    v.push(0x70u8);
    v.push(0x65u8);
    v.push(0x22u8);
    v.push(0x3au8);
    v.push(0x22u8);
    proof {
        assert(v@ =~= lit_request_pre());
    }
    v
}

fn lit_mid_vec() -> (r: Vec<u8>)
    ensures
        r@ == lit_request_mid(),
{
    let mut v: Vec<u8> = Vec::new();
    v.push(0x22u8);
    v.push(0x2cu8);
    v.push(0x22u8);
    v.push(0x72u8);
    v.push(0x65u8);
    v.push(0x71u8);
    v.push(0x75u8);
    v.push(0x65u8);
    v.push(0x73u8);
    v.push(0x74u8);
    v.push(0x49u8);
    v.push(0x64u8);
    v.push(0x22u8);
    v.push(0x3au8);
    proof {
        assert(v@ =~= lit_request_mid());
    }
    v
}

fn lit_key_vec() -> (r: Vec<u8>)
    ensures
        r@ == lit_request_key(),
{
    let mut v: Vec<u8> = Vec::new();
    v.push(0x2cu8);
    v.push(0x22u8);
    v.push(0x6bu8);
    v.push(0x65u8);
    v.push(0x79u8);
    v.push(0x22u8);
    v.push(0x3au8);
    v.push(0x22u8);
    proof {
        assert(v@ =~= lit_request_key());
    }
    v
}

fn lit_suf_vec() -> (r: Vec<u8>)
    ensures
        r@ == lit_request_suf(),
{
    let mut v: Vec<u8> = Vec::new();
    v.push(0x22u8);
    v.push(0x7du8);
    proof {
        assert(v@ =~= lit_request_suf());
    }
    v
}

/// Decodes one message as a query request.  The result is exactly what
/// the wire grammar admits: `Some` with the request's fields when `msg`
/// has the canonical shape, `None` otherwise.
pub fn decode_query(msg: &[u8]) -> (r: Option<QueryRequest>)
    ensures
        match r {
            Some(q) => spec_decode_query(msg@) == Some(q@),
            None => spec_decode_query(msg@) is None,
        },
{
    let n = msg.len();
    let pre = lit_pre_vec();
    if !match_lit(msg, 0, pre.as_slice()) {
        return None;
    }
    let t_start: usize = 9;
    let t_end = match scan_string_end(msg, t_start) {
        Some(e) => e,
        None => {
            return None;
        },
    };
    let mid = lit_mid_vec();
    if !match_lit(msg, t_end, mid.as_slice()) {
        return None;
    }
    let d_start = t_end + 14;
    let (id, d_end) = match scan_number(msg, d_start) {
        Some(p) => p,
        None => {
            return None;
        },
    };
    let keylit = lit_key_vec();
    if !match_lit(msg, d_end, keylit.as_slice()) {
        return None;
    }
    let k_start = d_end + 8;
    let k_end = match scan_string_end(msg, k_start) {
        Some(e) => e,
        None => {
            return None;
        },
    };
    let suf = lit_suf_vec();
    if !match_lit(msg, k_end, suf.as_slice()) {
        return None;
    }
    if k_end + 2 != msg.len() {
        return None;
    }
    let msg_type = crate::bytes::copy_range(msg, t_start, t_end);
    let key = crate::bytes::copy_range(msg, k_start, k_end);
    Some(QueryRequest { msg_type, request_id: id, key })
}

/// A query response before encoding.
pub struct QueryResponse {
    pub request_id: u64,
    pub found: bool,
    pub data: Option<Vec<u8>>,
}

/// The mathematical content of a query response.
pub ghost struct QueryResponseView {
    pub request_id: u64,
    pub found: bool,
    pub data: Option<Seq<u8>>,
}

impl View for QueryResponse {
    type V = QueryResponseView;

    open spec fn view(&self) -> QueryResponseView {
        QueryResponseView {
            request_id: self.request_id,
            found: self.found,
            data: match self.data {
                Some(ref d) => Some(d@),
                None => None,
            },
        }
    }
}

/// `{"requestId":`
pub open spec fn lit_response_pre() -> Seq<u8> {
    seq![
        0x7bu8,
        0x22u8,
        0x72u8,
        0x65u8,
        0x71u8,
        0x75u8,
        0x65u8,
        0x73u8,
        0x74u8,
        0x49u8,
        0x64u8,
        0x22u8,
        0x3au8,
    ]
}

/// `,"found":`
pub open spec fn lit_response_found() -> Seq<u8> {
    seq![0x2cu8, 0x22u8, 0x66u8, 0x6fu8, 0x75u8, 0x6eu8, 0x64u8, 0x22u8, 0x3au8]
}

/// `,"data":`
pub open spec fn lit_response_data() -> Seq<u8> {
    seq![0x2cu8, 0x22u8, 0x64u8, 0x61u8, 0x74u8, 0x61u8, 0x22u8, 0x3au8]
}

/// `true`
pub open spec fn lit_true() -> Seq<u8> {
    seq![0x74u8, 0x72u8, 0x75u8, 0x65u8]
}

/// `false`
pub open spec fn lit_false() -> Seq<u8> {
    seq![0x66u8, 0x61u8, 0x6cu8, 0x73u8, 0x65u8]
}

/// `null`
pub open spec fn lit_null() -> Seq<u8> {
    seq![0x6eu8, 0x75u8, 0x6cu8, 0x6cu8]
}

/// The decimal digits of `n`, most significant first, no leading zeros.
pub open spec fn spec_dec(n: nat) -> Seq<u8>
    decreases n,
{
    if n < 10 {
        seq![(0x30 + n) as u8]
    } else {
        spec_dec(n / 10) + seq![(0x30 + n % 10) as u8]
    }
}

/// The exact wire bytes of a response:
/// `{"requestId":<id>,"found":<bool>,"data":<value-or-null>}`.
pub open spec fn spec_encode_response(r: QueryResponseView) -> Seq<u8> {
    lit_response_pre() + spec_dec(r.request_id as nat) + lit_response_found() + (if r.found {
        lit_true()
    } else {
        lit_false()
    }) + lit_response_data() + (match r.data {
        Some(d) => d,
        None => lit_null(),
    }) + seq![0x7du8]
}

proof fn lemma_digits_value_same_prefix(b: Seq<u8>, c: Seq<u8>, i: int, j: int)
    requires
        0 <= i <= j <= b.len(),
        j <= c.len(),
        forall|k: int| i <= k < j ==> b[k] == c[k],
    ensures
        digits_value(b, i, j) == digits_value(c, i, j),
    decreases j - i,
{
    if i < j {
        lemma_digits_value_same_prefix(b, c, i, j - 1);
    }
}

/// The decimal encoding is faithful: `spec_dec(n)` is never empty, holds
/// digits only, starts with a zero only for `n == 0` itself, and reading
/// its digits back as a number gives `n` again.  The `requestId` a
/// response carries therefore spells, byte for byte, the number the
/// request carried.
pub proof fn lemma_spec_dec_faithful(n: nat)
    ensures
        spec_dec(n).len() >= 1,
        forall|i: int| 0 <= i < spec_dec(n).len() ==> is_digit(#[trigger] spec_dec(n)[i]),
        spec_dec(n)[0] == 0x30 ==> n == 0,
        digits_value(spec_dec(n), 0, spec_dec(n).len() as int) == n,
    decreases n,
{
    if n < 10 {
        assert(digits_value(spec_dec(n), 0, 0) == 0);
        assert(digits_value(spec_dec(n), 0, 1) == (spec_dec(n)[0] - 0x30) as nat);
    } else {
        lemma_spec_dec_faithful(n / 10);
        let s = spec_dec(n / 10);
        let d = (0x30 + n % 10) as u8;
        let t = spec_dec(n);
        assert(t =~= s + seq![d]);
        let l = s.len() as int;
        lemma_digits_value_same_prefix(t, s, 0, l);
        assert(digits_value(t, 0, l + 1) == digits_value(t, 0, l) * 10 + (t[l] - 0x30) as nat);
        assert(n == (n / 10) * 10 + n % 10);
    }
}

/// The decoder accepts every canonical encoding: a request whose type
/// and key hold accepted string content decodes, from its exact wire
/// bytes, back to itself.
pub proof fn lemma_decode_encode_query(q: QueryRequestView)
    requires
        all_content(q.msg_type),
        all_content(q.key),
    ensures
        spec_decode_query(spec_encode_query(q)) == Some(q),
{
    let b = spec_encode_query(q);
    let t = q.msg_type;
    let k = q.key;
    let d = spec_dec(q.request_id as nat);
    lemma_spec_dec_faithful(q.request_id as nat);
    let t_end = 9 + t.len() as int;
    let d_start = t_end + 14;
    let d_end = d_start + d.len() as int;
    let k_start = d_end + 8;
    let k_end = k_start + k.len() as int;
    assert(b.len() == k_end + 2);
    assert(b.subrange(0, 9) =~= lit_request_pre());
    assert(forall|x: int| 9 <= x < t_end ==> #[trigger] b[x] == t[x - 9]);
    assert(b[t_end] == 0x22);
    lemma_scan_content_region(b, 9, t_end);
    assert(b.subrange(t_end, d_start) =~= lit_request_mid());
    assert(forall|x: int| d_start <= x < d_end ==> #[trigger] b[x] == d[x - d_start]);
    assert(b[d_end] == 0x2c);
    lemma_digit_run_region(b, d_start, d_end);
    lemma_digits_value_shift(b, d_start, d_end, d);
    assert(digits_value(b, d_start, d_end) == q.request_id);
    if b[d_start] == 0x30 {
        assert(d[0] == 0x30);
        assert(q.request_id == 0);
        assert(d_end == d_start + 1);
    }
    assert(b.subrange(d_end, k_start) =~= lit_request_key());
    assert(forall|x: int| k_start <= x < k_end ==> #[trigger] b[x] == k[x - k_start]);
    assert(b[k_end] == 0x22);
    lemma_scan_content_region(b, k_start, k_end);
    assert(b.subrange(k_end, k_end + 2) =~= lit_request_suf());
    assert(b.subrange(9, t_end) =~= t);
    assert(b.subrange(k_start, k_end) =~= k);
}

/// Appends the decimal digits of `n`.
fn push_dec(out: &mut Vec<u8>, n: u64)
    ensures
        final(out)@ == old(out)@ + spec_dec(n as nat),
    decreases n,
{
    if n < 10 {
        out.push(0x30 + (n as u8));
        assert(out@ =~= old(out)@ + spec_dec(n as nat));
    } else {
        push_dec(out, n / 10);
        out.push(0x30 + ((n % 10) as u8));
        assert(out@ =~= old(out)@ + spec_dec(n as nat));
    }
}

fn push_lit_response_pre(out: &mut Vec<u8>)
    ensures
        final(out)@ == old(out)@ + lit_response_pre(),
{
    out.push(0x7b);
    out.push(0x22);
    out.push(0x72);
    out.push(0x65);
    out.push(0x71);
    out.push(0x75);
    out.push(0x65);
    out.push(0x73);
    out.push(0x74);
    out.push(0x49);
    out.push(0x64);
    out.push(0x22);
    out.push(0x3a);
    assert(out@ =~= old(out)@ + lit_response_pre());
}

fn push_lit_response_found(out: &mut Vec<u8>)
    ensures
        final(out)@ == old(out)@ + lit_response_found(),
{
    out.push(0x2c);
    out.push(0x22);
    out.push(0x66);
    out.push(0x6f);
    out.push(0x75);
    out.push(0x6e);
    out.push(0x64);
    out.push(0x22);
    out.push(0x3a);
    assert(out@ =~= old(out)@ + lit_response_found());
}

fn push_lit_response_data(out: &mut Vec<u8>)
    ensures
        final(out)@ == old(out)@ + lit_response_data(),
{
    out.push(0x2c);
    out.push(0x22);
    out.push(0x64);
    out.push(0x61);
    out.push(0x74);
    out.push(0x61);
    out.push(0x22);
    out.push(0x3a);
    assert(out@ =~= old(out)@ + lit_response_data());
}

/// Encodes a response in the exact wire shape `spec_encode_response`
/// gives.
pub fn encode_response(resp: &QueryResponse) -> (out: Vec<u8>)
    ensures
        out@ == spec_encode_response(resp@),
{
    let mut out: Vec<u8> = Vec::new();
    push_lit_response_pre(&mut out);
    push_dec(&mut out, resp.request_id);
    push_lit_response_found(&mut out);
    if resp.found {
        out.push(0x74);
        out.push(0x72);
        out.push(0x75);
        out.push(0x65);
    } else {
        out.push(0x66);
        out.push(0x61);
        out.push(0x6c);
        out.push(0x73);
        out.push(0x65);
    }
    push_lit_response_data(&mut out);
    match resp.data {
        Some(ref d) => {
            crate::bytes::extend_bytes(&mut out, d.as_slice());
        },
        None => {
            out.push(0x6e);
            out.push(0x75);
            out.push(0x6c);
            out.push(0x6c);
        },
    }
    out.push(0x7d);
    assert(out@ =~= spec_encode_response(resp@));
    out
}

} // verus!
