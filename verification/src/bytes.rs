//! Little-endian integers in byte sequences.

use vstd::prelude::*;

verus! {

/// Value of `s` read as a little-endian integer.
pub open spec fn le_value(s: Seq<u8>) -> nat
    decreases s.len(),
{
    if s.len() == 0 {
        0
    } else {
        s[0] as nat + 256 * le_value(s.drop_first())
    }
}

/// The low `k` bytes of `n`, least significant first.
pub open spec fn le_bytes(n: nat, k: nat) -> Seq<u8>
    decreases k,
{
    if k == 0 {
        Seq::empty()
    } else {
        seq![(n % 256) as u8] + le_bytes(n / 256, (k - 1) as nat)
    }
}

/// Number of values that `k` bytes can hold.
pub open spec fn byte_range(k: nat) -> nat
    decreases k,
{
    if k == 0 {
        1
    } else {
        256 * byte_range((k - 1) as nat)
    }
}

pub proof fn lemma_byte_ranges()
    ensures
        byte_range(4) == 0x1_0000_0000,
        byte_range(8) == 0x1_0000_0000_0000_0000,
{
    reveal_with_fuel(byte_range, 9);
}

/// Integers written as bytes read back as themselves.
pub proof fn le_round_trip(n: nat, k: nat)
    requires
        n < byte_range(k),
    ensures
        le_bytes(n, k).len() == k,
        le_value(le_bytes(n, k)) == n,
    decreases k,
{
    if k > 0 {
        le_round_trip(n / 256, (k - 1) as nat);
        assert(le_bytes(n, k).drop_first() =~= le_bytes(n / 256, (k - 1) as nat));
    }
}

pub proof fn lemma_le_len(n: nat, k: nat)
    ensures
        le_bytes(n, k).len() == k,
    decreases k,
{
    if k > 0 {
        lemma_le_len(n / 256, (k - 1) as nat);
    }
}

pub proof fn lemma_le_bound(s: Seq<u8>)
    ensures
        le_value(s) < byte_range(s.len()),
    decreases s.len(),
{
    if s.len() > 0 {
        lemma_le_bound(s.drop_first());
    }
}

proof fn lemma_range_grows(j: nat, k: nat)
    requires
        j <= k,
    ensures
        byte_range(j) <= byte_range(k),
    decreases k,
{
    if j < k {
        lemma_range_grows(j, (k - 1) as nat);
    }
}

/// Append the low `k` bytes of `x`.
pub fn push_le(out: &mut Vec<u8>, x: u64, k: usize)
    ensures
        final(out)@ == old(out)@ + le_bytes(x as nat, k as nat),
{
    let ghost start = out@;
    let mut rest: u64 = x;
    let mut i: usize = 0;
    while i < k
        invariant
            i <= k,
            out@ + le_bytes(rest as nat, (k - i) as nat) =~= start + le_bytes(x as nat, k as nat),
        decreases k - i,
    {
        let ghost tail = le_bytes(rest as nat, (k - i) as nat);
        let ghost was = out@;
        let b: u8 = (rest % 256) as u8;
        out.push(b);
        proof {
            assert(tail =~= seq![b] + le_bytes(rest as nat / 256, (k - i - 1) as nat));
            assert(out@ + le_bytes(rest as nat / 256, (k - i - 1) as nat) =~= was + tail);
        }
        rest = rest / 256;
        i = i + 1;
    }
    assert(out@ =~= start + le_bytes(x as nat, k as nat));
}

/// Read `k` bytes of `v` from `at` as a little-endian integer.
pub fn read_le(v: &Vec<u8>, at: usize, k: usize) -> (x: u64)
    requires
        k <= 8,
        at + k <= v@.len(),
    ensures
        x == le_value(v@.subrange(at as int, at + k)),
{
    let n: usize = v.len();
    let mut acc: u64 = 0;
    let mut i: usize = k;
    assert(v@.subrange(at + k, at + k) =~= Seq::<u8>::empty());
    while i > 0
        invariant
            i <= k <= 8,
            at + k <= n,
            n == v@.len(),
            acc == le_value(v@.subrange(at + i, at + k)),
        decreases i,
    {
        i = i - 1;
        let b: u8 = v[at + i];
        proof {
            let s = v@.subrange(at + i, at + k);
            assert(s.drop_first() =~= v@.subrange(at + i + 1, at + k));
            lemma_le_bound(s);
            lemma_range_grows(s.len(), 8);
            lemma_byte_ranges();
        }
        acc = acc * 256 + b as u64;
    }
    acc
}

} // verus!
