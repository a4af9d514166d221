//! Small verified helpers on byte slices and byte vectors.

use vstd::prelude::*;
use vstd::string::StrSliceExecFns;
use vstd::string::StringSliceAdditionalSpecFns;

verus! {

/// True when the byte is ASCII whitespace: space, tab, line feed or
/// carriage return.
pub open spec fn is_ws(b: u8) -> bool {
    b == 0x20 || b == 0x09 || b == 0x0a || b == 0x0d
}

/// Exact byte-for-byte equality of two slices.
pub fn bytes_eq(a: &[u8], b: &[u8]) -> (r: bool)
    ensures
        r == (a@ == b@),
{
    if a.len() != b.len() {
        assert(a@ != b@) by {
            assert(a@.len() != b@.len());
        }
        return false;
    }
    let n = a.len();
    let mut i: usize = 0;
    while i < n
        invariant
            n == a@.len() == b@.len(),
            i <= n,
            forall|j: int| 0 <= j < i ==> a@[j] == b@[j],
        decreases n - i,
    {
        if a[i] != b[i] {
            return false;
        }
        i += 1;
    }
    proof {
        assert(a@ =~= b@);
    }
    true
}

/// Appends every byte of `src` to `dst`.
pub fn extend_bytes(dst: &mut Vec<u8>, src: &[u8])
    ensures
        final(dst)@ == old(dst)@ + src@,
{
    let n = src.len();
    let mut i: usize = 0;
    while i < n
        invariant
            n == src@.len(),
            i <= n,
            dst@ == old(dst)@ + src@.subrange(0, i as int),
        decreases n - i,
    {
        dst.push(src[i]);
        assert(old(dst)@ + src@.subrange(0, i as int) + seq![src@[i as int]] =~= old(dst)@
            + src@.subrange(0, i + 1));
        i += 1;
    }
    proof {
        assert(src@.subrange(0, n as int) =~= src@);
    }
}

/// Copies `src[a..b)` into a fresh vector.
pub fn copy_range(src: &[u8], a: usize, b: usize) -> (r: Vec<u8>)
    requires
        a <= b <= src@.len(),
    ensures
        r@ == src@.subrange(a as int, b as int),
{
    let mut v: Vec<u8> = Vec::new();
    let mut i: usize = a;
    while i < b
        invariant
            a <= i <= b <= src@.len(),
            v@ == src@.subrange(a as int, i as int),
        decreases b - i,
    {
        v.push(src[i]);
        assert(src@.subrange(a as int, i as int).push(src@[i as int]) =~= src@.subrange(
            a as int,
            i + 1,
        ));
        i += 1;
    }
    v
}

/// The UTF-8 bytes of a string slice, as an owned vector.
pub fn str_bytes(s: &str) -> (r: Vec<u8>)
    ensures
        r@ == s.spec_bytes(),
{
    s.as_bytes_vec()
}

/// The end of the run of whitespace that starts at `i`.
pub open spec fn ws_run_end(b: Seq<u8>, i: int) -> int
    decreases b.len() - i when 0 <= i <= b.len()
{
    if i >= b.len() {
        i
    } else if is_ws(b[i]) {
        ws_run_end(b, i + 1)
    } else {
        i
    }
}

/// The start of the run of whitespace that ends at `j`.
pub open spec fn ws_run_start(b: Seq<u8>, j: int) -> int
    decreases j when 0 <= j <= b.len()
{
    if j <= 0 {
        0
    } else if is_ws(b[j - 1]) {
        ws_run_start(b, j - 1)
    } else {
        j
    }
}

/// `b` without its leading and trailing ASCII whitespace.
pub open spec fn spec_trim(b: Seq<u8>) -> Seq<u8> {
    let s = ws_run_end(b, 0);
    let e = ws_run_start(b, b.len() as int);
    if s <= e {
        b.subrange(s, e)
    } else {
        Seq::empty()
    }
}

proof fn lemma_ws_run_end_bounds(b: Seq<u8>, i: int)
    requires
        0 <= i <= b.len(),
    ensures
        i <= ws_run_end(b, i) <= b.len(),
    decreases b.len() - i,
{
    if i < b.len() && is_ws(b[i]) {
        lemma_ws_run_end_bounds(b, i + 1);
    }
}

proof fn lemma_ws_run_start_bounds(b: Seq<u8>, j: int)
    requires
        0 <= j <= b.len(),
    ensures
        0 <= ws_run_start(b, j) <= j,
    decreases j,
{
    if j > 0 && is_ws(b[j - 1]) {
        lemma_ws_run_start_bounds(b, j - 1);
    }
}

/// A copy of `msg` without its leading and trailing ASCII whitespace:
/// space, tab, line feed, carriage return.
pub fn trim_copy(msg: &[u8]) -> (r: Vec<u8>)
    ensures
        r@ == spec_trim(msg@),
{
    let n = msg.len();
    proof {
        lemma_ws_run_end_bounds(msg@, 0);
        lemma_ws_run_start_bounds(msg@, n as int);
    }
    let mut s: usize = 0;
    while s < n && (msg[s] == 0x20 || msg[s] == 0x09 || msg[s] == 0x0a || msg[s] == 0x0d)
        invariant
            n == msg@.len(),
            0 <= s <= n,
            ws_run_end(msg@, 0) == ws_run_end(msg@, s as int),
        decreases n - s,
    {
        s += 1;
    }
    assert(ws_run_end(msg@, 0) == s);
    let mut e: usize = n;
    while e > 0 && (msg[e - 1] == 0x20 || msg[e - 1] == 0x09 || msg[e - 1] == 0x0a || msg[e - 1]
        == 0x0d)
        invariant
            n == msg@.len(),
            0 <= e <= n,
            ws_run_start(msg@, n as int) == ws_run_start(msg@, e as int),
        decreases e,
    {
        e -= 1;
    }
    assert(ws_run_start(msg@, n as int) == e);
    if s <= e {
        copy_range(msg, s, e)
    } else {
        Vec::new()
    }
}

} // verus!
