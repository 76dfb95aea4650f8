//! Order of 32-bit floats on their bits, greedy choice, and the seeded
//! sampler's integer side.

use vstd::prelude::*;

use crate::sort;

verus! {

/// Bits without the sign.
pub open spec fn magnitude(b: u32) -> int {
    (b % 0x8000_0000) as int
}

/// The bits are those of no number.
pub open spec fn is_nan(b: u32) -> bool {
    magnitude(b) > 0x7f80_0000
}

/// An integer that orders numbers as they are; both zeros are equal.
pub open spec fn order(b: u32) -> int {
    if b >= 0x8000_0000 {
        -magnitude(b)
    } else {
        magnitude(b)
    }
}

/// `a > b` on floats.
pub open spec fn above(a: u32, b: u32) -> bool {
    !is_nan(a) && !is_nan(b) && order(a) > order(b)
}

fn order_of(b: u32) -> (r: i64)
    ensures
        r == order(b),
{
    let m: i64 = (b % 0x8000_0000) as i64;
    if b >= 0x8000_0000 {
        -m
    } else {
        m
    }
}

/// `a > b` on floats.
pub fn greater(a: u32, b: u32) -> (r: bool)
    ensures
        r == above(a, b),
{
    a % 0x8000_0000 <= 0x7f80_0000 && b % 0x8000_0000 <= 0x7f80_0000 && order_of(a) > order_of(b)
}

/// Index of the first of the largest among the first `n` of a row that
/// starts at `lo`.
pub open spec fn best(v: Seq<u32>, lo: int, n: int) -> int
    decreases n,
{
    if n <= 1 {
        0
    } else {
        let b = best(v, lo, n - 1);
        if above(v[lo + n - 1], v[lo + b]) {
            n - 1
        } else {
            b
        }
    }
}

/// Greedy choice of one row of logits, given as float bits: the first of the
/// largest.
pub fn argmax_row(v: &Vec<u32>, lo: usize, n: u32) -> (r: u32)
    requires
        lo + n <= v@.len(),
    ensures
        r == best(v@, lo as int, n as int),
        n > 0 ==> r < n,
{
    let mut b: u32 = 0;
    let mut i: u32 = 1;
    let len: usize = v.len();
    while i < n
        invariant
            n > 0 ==> 1 <= i <= n && b < i,
            n == 0 ==> b == 0,
            lo + n <= len,
            len == v@.len(),
            n > 0 ==> b == best(v@, lo as int, i as int),
        decreases n - i,
    {
        if greater(v[lo + i as usize], v[lo + b as usize]) {
            b = i;
        }
        i = i + 1;
    }
    b
}

/// Greedy choice of a whole list of logits, given as float bits.
pub fn argmax(v: &Vec<u32>) -> (r: u32)
    requires
        v@.len() <= u32::MAX,
    ensures
        r == best(v@, 0, v@.len() as int),
{
    argmax_row(v, 0, v.len() as u32)
}

/// Greedy choice of each of `rows` rows of `width` logits.
pub fn argmax_rows(v: &Vec<u32>, rows: usize, width: u32) -> (r: Vec<u32>)
    requires
        rows * width <= v@.len(),
    ensures
        r@.len() == rows,
        forall|i: int|
            0 <= i < rows ==> #[trigger] r@[i] == best(v@, i * width, width as int),
{
    let mut r: Vec<u32> = Vec::new();
    let mut i: usize = 0;
    let len: usize = v.len();
    while i < rows
        invariant
            i <= rows,
            rows * width <= len,
            len == v@.len(),
            r@.len() == i,
            forall|k: int| 0 <= k < i ==> #[trigger] r@[k] == best(v@, k * width, width as int),
        decreases rows - i,
    {
        proof {
            assert(0 <= i * width && i * width + width <= rows * width) by (nonlinear_arith)
                requires
                    0 <= i < rows,
                    0 <= width,
            ;
        }
        r.push(argmax_row(v, i * width as usize, width));
        i = i + 1;
    }
    r
}

/// Where every logit is a number, the choice is a largest one, and the first
/// of those.
pub proof fn choice_is_first_largest(v: Seq<u32>, lo: int, n: int)
    requires
        0 <= lo,
        1 <= n,
        lo + n <= v.len(),
        forall|i: int| lo <= i < lo + n ==> !is_nan(#[trigger] v[i]),
    ensures
        0 <= best(v, lo, n) < n,
        forall|i: int| 0 <= i < n ==> order(#[trigger] v[lo + i]) <= order(v[lo + best(v, lo, n)]),
        forall|i: int|
            0 <= i < best(v, lo, n) ==> order(#[trigger] v[lo + i]) < order(
                v[lo + best(v, lo, n)],
            ),
    decreases n,
{
    if n > 1 {
        choice_is_first_largest(v, lo, n - 1);
    }
}

/// Temperature, nucleus and minimum share of a sampler, in float bits, and
/// the state of its generator.
#[derive(Clone, Copy, Debug, PartialEq, Eq, Structural)]
pub struct Sampler {
    pub temp: u32,
    pub top_p: u32,
    pub min_p: u32,
    pub state: u64,
}

/// The next generator state.
pub open spec fn xorshift(x: u64) -> u64 {
    let a = x ^ (x >> 12u64);
    let b = a ^ (a << 25u64);
    b ^ (b >> 27u64)
}

/// The number a state gives: 24 bits.
pub open spec fn draw_of(x: u64) -> u64 {
    x.wrapping_mul(0x2545_f491_4f6c_dd1d) >> 40u64
}

impl Sampler {
    /// A sampler with a seed; equal seeds give equal draws.
    pub fn new(temp: u32, top_p: u32, min_p: u32, seed: u64) -> (s: Sampler)
        ensures
            s == (Sampler { temp, top_p, min_p, state: seed | 1 }),
            s.state != 0,
    {
        proof {
            assert(seed | 1 != 0) by (bit_vector);
        }
        Sampler { temp, top_p, min_p, state: seed | 1 }
    }

    /// The sampler always takes the largest logit.
    pub fn is_greedy(&self) -> (r: bool)
        ensures
            r == (!is_nan(self.temp) && order(self.temp) <= 0),
    {
        self.temp % 0x8000_0000 <= 0x7f80_0000 && order_of(self.temp) <= 0
    }

    /// Draw the next 24-bit number; over two to the 24th it is uniform on
    /// the unit interval.
    pub fn draw(&mut self) -> (n: u32)
        ensures
            final(self).state == xorshift(old(self).state),
            n == draw_of(xorshift(old(self).state)),
            n < 0x100_0000,
            final(self).temp == old(self).temp,
            final(self).top_p == old(self).top_p,
            final(self).min_p == old(self).min_p,
    {
        let mut x: u64 = self.state;
        x = x ^ (x >> 12u64);
        x = x ^ (x << 25u64);
        x = x ^ (x >> 27u64);
        self.state = x;
        let y: u64 = x.wrapping_mul(0x2545_f491_4f6c_dd1d);
        proof {
            assert(y >> 40u64 < 0x100_0000) by (bit_vector);
        }
        (y >> 40u64) as u32
    }
}

/// The generator never falls into its dead state.
pub proof fn generator_never_dies(x: u64)
    requires
        x != 0,
    ensures
        xorshift(x) != 0,
{
    let a = x ^ (x >> 12u64);
    let b = a ^ (a << 25u64);
    assert(a != 0) by (bit_vector)
        requires
            x != 0,
            a == x ^ (x >> 12u64),
    ;
    assert(b != 0) by (bit_vector)
        requires
            a != 0,
            b == a ^ (a << 25u64),
    ;
    assert(b ^ (b >> 27u64) != 0) by (bit_vector)
        requires
            b != 0,
    ;
}

/// An integer that orders all float bits, from the lowest negative to the
/// highest positive.
pub open spec fn total_key(b: u32) -> u64 {
    if b >= 0x8000_0000 {
        (0xffff_ffff - b) as u64
    } else {
        (0x8000_0000 + b) as u64
    }
}

/// The keys of a list of float bits.
pub open spec fn total_keys(v: Seq<u32>) -> Seq<u64> {
    Seq::new(v.len(), |i: int| total_key(v[i]))
}

/// Token ids from the largest logit to the smallest.
pub fn candidates(v: &Vec<u32>) -> (p: Vec<usize>)
    ensures
        sort::ranks(sort::flipped(total_keys(v@)), 0, v@.len() as int, p@),
{
    let mut keys: Vec<u64> = Vec::new();
    let mut i: usize = 0;
    while i < v.len()
        invariant
            i <= v@.len(),
            keys@ =~= total_keys(v@).take(i as int),
        decreases v@.len() - i,
    {
        let b: u32 = v[i];
        let k: u64 = if b >= 0x8000_0000 {
            (0xffff_ffff - b) as u64
        } else {
            (0x8000_0000 + b) as u64
        };
        keys.push(k);
        i = i + 1;
    }
    assert(keys@ =~= total_keys(v@));
    sort::rank_desc(&keys)
}

} // verus!
