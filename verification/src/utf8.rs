//! Streamed text: what of the bytes so far can be shown.

use vstd::prelude::*;
use vstd::utf8::*;

verus! {

/// The longest part at the front of `b` that is valid text ends at `n`.
pub open spec fn is_valid_end(b: Seq<u8>, n: int) -> bool {
    &&& partial_valid_utf8(b, n)
    &&& !valid_first_scalar(b.subrange(n, b.len() as int))
}

/// No longer part is valid.
pub proof fn valid_end_is_longest(b: Seq<u8>, n: int, m: int)
    requires
        is_valid_end(b, n),
        n < m <= b.len(),
    ensures
        !partial_valid_utf8(b, m),
{
    let c = b.subrange(0, m);
    let tail = c.subrange(n, c.len() as int);
    let rest = b.subrange(n, b.len() as int);
    assert(c.subrange(0, n) =~= b.subrange(0, n));
    assert forall|i: int| 0 <= i < tail.len() implies tail[i] == rest[i] by {}
    if valid_first_scalar(tail) {
        assert(valid_first_scalar(rest));
    }
    assert(!valid_utf8(tail));
    partial_valid_partial_invalid_utf8(c, n);
}

fn continues(b: u8) -> (r: bool)
    ensures
        r == is_continuation_byte(b),
{
    0x80 <= b && b <= 0xbf
}

fn low6(b: u8) -> (r: u32)
    ensures
        r == continuation_bits(b),
{
    (b & 0x3f) as u32
}

/// Length of the character that starts at `at`; zero when none does.
fn char_len(v: &Vec<u8>, at: usize) -> (n: usize)
    requires
        at <= v@.len(),
    ensures
        ({
            let rest = v@.subrange(at as int, v@.len() as int);
            if valid_first_scalar(rest) {
                n == length_of_first_scalar(rest) && at + n <= v@.len() && n > 0
            } else {
                n == 0
            }
        }),
{
    let len: usize = v.len();
    let ghost rest = v@.subrange(at as int, len as int);
    if at >= len {
        return 0;
    }
    let b1: u8 = v[at];
    let left: usize = len - at;
    assert(rest[0] == b1);
    if b1 <= 0x7f {
        let c: u32 = (b1 & 0x7F) as u32;
        proof {
            assert((b1 & 0x7F) <= 0x7f) by (bit_vector);
            assert(decode_first_codepoint(rest) == c);
        }
        1
    } else if 0xc0 <= b1 && b1 <= 0xdf {
        if left < 2 || !continues(v[at + 1]) {
            return 0;
        }
        assert(rest[1] == v@[at + 1]);
        let c: u32 = (((b1 & 0x1F) as u32) << 6u32) | low6(v[at + 1]);
        assert(decode_first_codepoint(rest) == c);
        if 0x80 <= c && !(0xd800 <= c && c <= 0xdfff) {
            2
        } else {
            0
        }
    } else if 0xe0 <= b1 && b1 <= 0xef {
        if left < 3 || !continues(v[at + 1]) || !continues(v[at + 2]) {
            return 0;
        }
        assert(rest[1] == v@[at + 1] && rest[2] == v@[at + 2]);
        let c: u32 = (((b1 & 0x0F) as u32) << 12u32) | (low6(v[at + 1]) << 6u32) | low6(v[at + 2]);
        assert(decode_first_codepoint(rest) == c);
        if 0x800 <= c && !(0xd800 <= c && c <= 0xdfff) {
            3
        } else {
            0
        }
    } else if 0xf0 <= b1 && b1 <= 0xf7 {
        if left < 4 || !continues(v[at + 1]) || !continues(v[at + 2]) || !continues(v[at + 3]) {
            return 0;
        }
        assert(rest[1] == v@[at + 1] && rest[2] == v@[at + 2] && rest[3] == v@[at + 3]);
        let c: u32 = (((b1 & 0x07) as u32) << 18u32) | (low6(v[at + 1]) << 12u32) | (low6(v[at + 2])
            << 6u32) | low6(v[at + 3]);
        assert(decode_first_codepoint(rest) == c);
        if 0x1_0000 <= c && c <= 0x10_ffff {
            4
        } else {
            0
        }
    } else {
        0
    }
}

/// End of the longest valid part at the front.
pub fn valid_up_to(v: &Vec<u8>) -> (n: usize)
    ensures
        is_valid_end(v@, n as int),
{
    let len: usize = v.len();
    let mut at: usize = 0;
    assert(v@.subrange(0, 0) =~= Seq::<u8>::empty());
    loop
        invariant
            len == v@.len(),
            partial_valid_utf8(v@, at as int),
        ensures
            is_valid_end(v@, at as int),
        decreases v@.len() - at,
    {
        let n: usize = char_len(v, at);
        if n == 0 {
            break;
        }
        proof {
            partial_valid_utf8_extend(v@, at as int);
        }
        at = at + n;
    }
    at
}

/// Take the longest valid part off the front of a buffer; an incomplete
/// character stays for the next bytes.
pub fn take_valid(buf: &mut Vec<u8>) -> (out: Vec<u8>)
    ensures
        old(buf)@ == out@ + final(buf)@,
        is_valid_end(old(buf)@, out@.len() as int),
        valid_utf8(out@),
{
    let n: usize = valid_up_to(buf);
    let ghost b = buf@;
    let mut out: Vec<u8> = Vec::new();
    let mut i: usize = 0;
    while i < n
        invariant
            i <= n <= buf@.len(),
            out@ =~= buf@.subrange(0, i as int),
        decreases n - i,
    {
        out.push(buf[i]);
        i = i + 1;
    }
    let mut rest: Vec<u8> = Vec::new();
    let len: usize = buf.len();
    while i < len
        invariant
            n <= i <= len,
            len == buf@.len(),
            rest@ =~= buf@.subrange(n as int, i as int),
        decreases len - i,
    {
        rest.push(buf[i]);
        i = i + 1;
    }
    *buf = rest;
    assert(b =~= out@ + buf@);
    out
}

} // verus!
