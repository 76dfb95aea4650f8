//! Half floats on their bits, and the integer codes inside block-quantized
//! weights.

use vstd::prelude::*;

use crate::header::TensorType;
use crate::tensors;

verus! {

/// Two to the `n`.
pub open spec fn two_to(n: int) -> int
    decreases n,
{
    if n <= 0 {
        1
    } else {
        2 * two_to(n - 1)
    }
}

/// Exponent field of a half float.
pub open spec fn half_exp(h: u16) -> int {
    ((h / 1024) % 32) as int
}

/// Fraction field of a half float.
pub open spec fn half_frac(h: u16) -> int {
    (h % 1024) as int
}

/// Sign of a half float: zero or one.
pub open spec fn half_sign(h: u16) -> int {
    (h / 0x8000) as int
}

/// Exponent and fraction of a small half float after it is doubled until it
/// has eleven digits.
pub open spec fn doubled(m: int, e: int) -> (int, int)
    decreases 2048 - m,
    when m > 0
{
    if m >= 1024 {
        (m, e)
    } else {
        doubled(2 * m, e - 1)
    }
}

/// Bits of the 32-bit float with the value of a half float.
pub open spec fn widened(h: u16) -> int {
    let s = half_sign(h) * 0x8000_0000;
    let e = half_exp(h);
    let m = half_frac(h);
    if e == 0 {
        if m == 0 {
            s
        } else {
            let (n, x) = doubled(m, 113);
            s + x * 0x80_0000 + (n - 1024) * 8192
        }
    } else if e == 31 {
        s + 255 * 0x80_0000 + m * 8192
    } else {
        s + (e + 112) * 0x80_0000 + m * 8192
    }
}

proof fn lemma_doubled(m: int, e: int)
    requires
        0 < m < 2048,
    ensures
        1024 <= doubled(m, e).0 < 2048,
        m < 1024 ==> doubled(m, e).1 < e,
        m >= 512 ==> doubled(m, e).1 >= e - 1,
        m >= 256 ==> doubled(m, e).1 >= e - 2,
        m >= 128 ==> doubled(m, e).1 >= e - 3,
        m >= 64 ==> doubled(m, e).1 >= e - 4,
        m >= 32 ==> doubled(m, e).1 >= e - 5,
        m >= 16 ==> doubled(m, e).1 >= e - 6,
        m >= 8 ==> doubled(m, e).1 >= e - 7,
        m >= 4 ==> doubled(m, e).1 >= e - 8,
        m >= 2 ==> doubled(m, e).1 >= e - 9,
        doubled(m, e).1 >= e - 10,
    decreases 2048 - m,
{
    if m < 1024 {
        lemma_doubled(2 * m, e - 1);
    }
}

/// Bits of the 32-bit float with the value of a half float.
pub fn f16_to_f32(h: u16) -> (b: u32)
    ensures
        b == widened(h),
{
    let s: u32 = (h / 0x8000) as u32 * 0x8000_0000;
    let e: u32 = ((h / 1024) % 32) as u32;
    let m: u32 = (h % 1024) as u32;
    if e == 0 {
        if m == 0 {
            s
        } else {
            let mut n: u32 = m;
            let mut x: u32 = 113;
            proof {
                lemma_doubled(m as int, 113);
            }
            while n < 1024
                invariant
                    0 < n < 2048,
                    x <= 113,
                    doubled(m as int, 113) == doubled(n as int, x as int),
                    doubled(m as int, 113).1 >= 103,
                decreases 2048 - n,
            {
                proof {
                    lemma_doubled(n as int, x as int);
                }
                n = n * 2;
                x = x - 1;
            }
            s + x * 0x80_0000 + (n - 1024) * 8192
        }
    } else if e == 31 {
        s + 255 * 0x80_0000 + m * 8192
    } else {
        s + (e + 112) * 0x80_0000 + m * 8192
    }
}

/// Value of a finite half float without its sign, in units of two to the
/// minus 24th.
pub open spec fn half_units(h: u16) -> int {
    if half_exp(h) == 0 {
        half_frac(h)
    } else {
        (1024 + half_frac(h)) * two_to(half_exp(h) - 1)
    }
}

/// Value of a normal 32-bit float of exponent field 103 or more without its
/// sign, in units of two to the minus 47th.
pub open spec fn single_units(b: int) -> int {
    let e = (b / 0x80_0000) % 256;
    (0x80_0000 + b % 0x80_0000) * two_to(e - 103)
}

proof fn lemma_two_to(a: int, b: int)
    requires
        0 <= a,
        0 <= b,
    ensures
        two_to(a + b) == two_to(a) * two_to(b),
    decreases a,
{
    if a > 0 {
        lemma_two_to(a - 1, b);
        assert((2 * two_to(a - 1)) * two_to(b) == 2 * (two_to(a - 1) * two_to(b)))
            by (nonlinear_arith);
    }
}

proof fn lemma_doubled_value(m: int, e: int)
    requires
        0 < m < 2048,
        doubled(m, e).1 >= 103,
    ensures
        doubled(m, e).0 * two_to(doubled(m, e).1 - 103) == m * two_to(e - 103),
    decreases 2048 - m,
{
    if m < 1024 {
        lemma_doubled(2 * m, e - 1);
        lemma_doubled_value(2 * m, e - 1);
        let p = two_to(e - 104);
        assert(2 * m * p == m * (2 * p)) by (nonlinear_arith);
    }
}

/// Widening a half float keeps its value and its sign.
pub proof fn widening_is_exact(h: u16)
    requires
        half_exp(h) < 31,
        half_units(h) != 0,
    ensures
        single_units(widened(h)) == half_units(h) * two_to(23),
        widened(h) / 0x8000_0000 == half_sign(h),
        0 <= widened(h) < 0x1_0000_0000,
{
    let e = half_exp(h);
    let m = half_frac(h);
    let s = half_sign(h);
    assert(two_to(13) == 8192 && two_to(10) == 1024) by {
        reveal_with_fuel(two_to, 14);
    }
    assert(two_to(23) == 8192 * 1024) by {
        lemma_two_to(13, 10);
    }
    if e == 0 {
        lemma_doubled(m, 113);
        lemma_doubled_value(m, 113);
        let (n, x) = doubled(m, 113);
        let b = widened(h);
        assert(b % 0x80_0000 == (n - 1024) * 8192);
        assert((b / 0x80_0000) % 256 == x);
        let p = two_to(x - 103);
        assert((n * 8192) * p == 8192 * (n * p)) by (nonlinear_arith);
        assert(n * p == m * 1024);
    } else {
        let b = widened(h);
        assert(b % 0x80_0000 == m * 8192);
        assert((b / 0x80_0000) % 256 == e + 112);
        lemma_two_to(e - 1, 10);
        let p = two_to(e - 1);
        assert(two_to(e + 9) == p * 1024);
        assert(((1024 + m) * 8192) * (p * 1024) == ((1024 + m) * p) * (8192 * 1024))
            by (nonlinear_arith);
    }
}

/// Bits of the half float next to zero from a 32-bit float; too small ones
/// become zero, too large ones infinite.
pub open spec fn narrowed(b: u32) -> int {
    let s = (b / 0x8000_0000) * 0x8000;
    let e = (b / 0x80_0000) % 256 - 112;
    let m = b % 0x80_0000;
    if e <= 0 {
        s
    } else if e >= 31 {
        s + 0x7c00
    } else {
        s + e * 1024 + m / 8192
    }
}

/// Bits of the half float for a 32-bit float.
pub fn f32_to_f16(b: u32) -> (h: u16)
    ensures
        h == narrowed(b),
{
    let s: u32 = (b / 0x8000_0000) * 0x8000;
    let e: u32 = (b / 0x80_0000) % 256;
    let m: u32 = b % 0x80_0000;
    let r: u32 = if e <= 112 {
        s
    } else if e >= 143 {
        s + 0x7c00
    } else {
        s + (e - 112) * 1024 + m / 8192
    };
    r as u16
}

/// A half float of the normal range survives widening and narrowing.
pub proof fn halves_survive(h: u16)
    requires
        1 <= half_exp(h) < 31,
    ensures
        0 <= widened(h) < 0x1_0000_0000,
        narrowed(widened(h) as u32) == h,
{
    let e = half_exp(h);
    let m = half_frac(h);
    let s = half_sign(h);
    let b = widened(h) as u32;
    assert(b / 0x8000_0000 == s);
    assert((b / 0x80_0000) % 256 == e + 112);
    assert(b % 0x80_0000 == m * 8192);
    assert((m * 8192) / 8192 == m);
}

/// Two bits of a byte: the `k`-th pair from below.
pub open spec fn pair(b: u8, k: int) -> int {
    if k == 0 {
        (b % 4) as int
    } else if k == 1 {
        (b / 4 % 4) as int
    } else if k == 2 {
        (b / 16 % 4) as int
    } else {
        (b / 64) as int
    }
}

fn pair_of(b: u8, k: usize) -> (r: u8)
    ensures
        r == pair(b, k as int),
        r < 4,
{
    if k == 0 {
        b % 4
    } else if k == 1 {
        b / 4 % 4
    } else if k == 2 {
        b / 16 % 4
    } else {
        b / 64
    }
}

/// One bit of a byte, from below.
pub open spec fn bit(b: u8, k: int) -> bool {
    pair(b, k / 2) / (if k % 2 == 0 {
        1
    } else {
        2
    }) % 2 == 1
}

fn bit_of(b: u8, k: usize) -> (r: bool)
    ensures
        r == bit(b, k as int),
{
    let p: u8 = pair_of(b, k / 2);
    if k % 2 == 0 {
        p % 2 == 1
    } else {
        p / 2 % 2 == 1
    }
}

/// The low or the high four bits of a byte.
pub open spec fn nibble(b: u8, high: bool) -> int {
    if high {
        (b / 16) as int
    } else {
        (b % 16) as int
    }
}

fn nibble_of(b: u8, high: bool) -> (r: u8)
    ensures
        r == nibble(b, high),
        r < 16,
{
    if high {
        b / 16
    } else {
        b % 16
    }
}

/// A byte read as a signed one.
pub open spec fn signed(b: u8) -> int {
    if b >= 128 {
        b - 256
    } else {
        b as int
    }
}

/// Scale and minimum number `j` of the twelve packed bytes at `at`.
pub open spec fn scale_min(v: Seq<u8>, at: int, j: int) -> (int, int) {
    if j < 4 {
        ((v[at + j] % 64) as int, (v[at + j + 4] % 64) as int)
    } else {
        (
            v[at + j + 4] % 16 + v[at + j - 4] / 64 * 16,
            v[at + j + 4] / 16 + v[at + j] / 64 * 16,
        )
    }
}

fn k4_scale_min(v: &Vec<u8>, at: usize, j: usize) -> (r: (u8, u8))
    requires
        j < 8,
        at + 12 <= v@.len(),
    ensures
        r.0 == scale_min(v@, at as int, j as int).0,
        r.1 == scale_min(v@, at as int, j as int).1,
        r.0 < 64,
        r.1 < 64,
{
    let n: usize = v.len();
    if j < 4 {
        (v[at + j] % 64, v[at + j + 4] % 64)
    } else {
        (
            v[at + j + 4] % 16 + v[at + j - 4] / 64 * 16,
            v[at + j + 4] / 16 + v[at + j] / 64 * 16,
        )
    }
}

/// The eight pairs of scale and minimum fit six bits each, and they
/// determine the twelve bytes that hold them.
pub proof fn scales_determine_their_bytes(v: Seq<u8>, w: Seq<u8>, at: int)
    requires
        0 <= at,
        at + 12 <= v.len(),
        at + 12 <= w.len(),
        forall|j: int| 0 <= j < 8 ==> #[trigger] scale_min(v, at, j) == scale_min(w, at, j),
    ensures
        forall|j: int|
            0 <= j < 8 ==> 0 <= (#[trigger] scale_min(v, at, j)).0 <= 63 && 0 <= scale_min(
                v,
                at,
                j,
            ).1 <= 63,
        v.subrange(at, at + 12) == w.subrange(at, at + 12),
{
    assert forall|i: int| 0 <= i < 12 implies #[trigger] v.subrange(at, at + 12)[i] == w.subrange(
        at,
        at + 12,
    )[i] by {
        let k = i % 4;
        assert(scale_min(v, at, k) == scale_min(w, at, k));
        assert(scale_min(v, at, k + 4) == scale_min(w, at, k + 4));
        assert(v[at + k] == w[at + k] && v[at + k + 4] == w[at + k + 4] && v[at + k + 8] == w[at + k
            + 8]);
    }
    assert(v.subrange(at, at + 12) =~= w.subrange(at, at + 12));
}

/// What one weight of a block is made of: its value is the block's scale
/// times `scale` times `q`, less the block's minimum times `min`.
#[derive(Clone, Copy, Debug, PartialEq, Eq, Structural)]
pub struct Code {
    pub scale: i16,
    pub q: i16,
    pub min: i16,
}

/// Bytes of one block of 256 weights.
pub open spec fn block_len(ty: TensorType) -> int {
    match ty {
        TensorType::Q2K => 84,
        TensorType::Q3K => 110,
        TensorType::Q4K => 144,
        TensorType::Q5K => 176,
        _ => 210,
    }
}

/// Bytes of one block of 256 weights.
pub fn block_bytes(ty: TensorType) -> (n: usize)
    requires
        tensors::is_k_quant(ty),
    ensures
        n == block_len(ty),
{
    match ty {
        TensorType::Q2K => 84,
        TensorType::Q3K => 110,
        TensorType::Q4K => 144,
        TensorType::Q5K => 176,
        _ => 210,
    }
}

/// Scale of the `j`-th sixteen weights of a three-bit block.
pub open spec fn q3_scale(v: Seq<u8>, at: int, j: int) -> int {
    let low = if j < 8 { nibble(v[at + 96 + j], false) } else { nibble(v[at + 88 + j], true) };
    low + pair(v[at + 104 + j % 4], j / 4) * 16 - 32
}

/// The code of weight `i` of the block at `at`.
pub open spec fn code_of(ty: TensorType, v: Seq<u8>, at: int, i: int) -> Code {
    let l = i % 32;
    match ty {
        TensorType::Q2K => Code {
            scale: nibble(v[at + i / 16], false) as i16,
            q: pair(v[at + 16 + i / 128 * 32 + l], i % 128 / 32) as i16,
            min: nibble(v[at + i / 16], true) as i16,
        },
        TensorType::Q3K => Code {
            scale: q3_scale(v, at, i / 16) as i16,
            q: (pair(v[at + 32 + i / 128 * 32 + l], i % 128 / 32) - if bit(v[at + l], i / 32) {
                0int
            } else {
                4
            }) as i16,
            min: 0,
        },
        TensorType::Q4K => Code {
            scale: scale_min(v, at + 4, i / 32).0 as i16,
            q: nibble(v[at + 16 + i / 64 * 32 + l], i % 64 >= 32) as i16,
            min: scale_min(v, at + 4, i / 32).1 as i16,
        },
        TensorType::Q5K => Code {
            scale: scale_min(v, at + 4, i / 32).0 as i16,
            q: (nibble(v[at + 48 + i / 64 * 32 + l], i % 64 >= 32) + if bit(
                v[at + 16 + l],
                i / 32,
            ) {
                16int
            } else {
                0
            }) as i16,
            min: scale_min(v, at + 4, i / 32).1 as i16,
        },
        _ => {
            let quarter = i % 128 / 32;
            Code {
                scale: signed(v[at + 192 + i / 128 * 8 + 2 * quarter + l / 16]) as i16,
                q: (nibble(v[at + i / 128 * 64 + quarter % 2 * 32 + l], quarter >= 2) + pair(
                    v[at + 128 + i / 128 * 32 + l],
                    quarter,
                ) * 16 - 32) as i16,
                min: 0,
            }
        },
    }
}

fn q2_code(v: &Vec<u8>, at: usize, i: usize) -> (c: Code)
    requires
        i < 256,
        at + 84 <= v@.len(),
    ensures
        c == code_of(TensorType::Q2K, v@, at as int, i as int),
{
    let n: usize = v.len();
    let l: usize = i % 32;
    Code {
        scale: nibble_of(v[at + i / 16], false) as i16,
        q: pair_of(v[at + 16 + i / 128 * 32 + l], i % 128 / 32) as i16,
        min: nibble_of(v[at + i / 16], true) as i16,
    }
}

fn q3_code(v: &Vec<u8>, at: usize, i: usize) -> (c: Code)
    requires
        i < 256,
        at + 110 <= v@.len(),
    ensures
        c == code_of(TensorType::Q3K, v@, at as int, i as int),
{
    let n: usize = v.len();
    let l: usize = i % 32;
    let j: usize = i / 16;
    let low: u8 = if j < 8 {
        nibble_of(v[at + 96 + j], false)
    } else {
        nibble_of(v[at + 88 + j], true)
    };
    let scale: i16 = low as i16 + pair_of(v[at + 104 + j % 4], j / 4) as i16 * 16 - 32;
    let q: i16 = pair_of(v[at + 32 + i / 128 * 32 + l], i % 128 / 32) as i16;
    Code {
        scale,
        q: if bit_of(v[at + l], i / 32) {
            q
        } else {
            q - 4
        },
        min: 0,
    }
}

fn q4_code(v: &Vec<u8>, at: usize, i: usize) -> (c: Code)
    requires
        i < 256,
        at + 144 <= v@.len(),
    ensures
        c == code_of(TensorType::Q4K, v@, at as int, i as int),
{
    let n: usize = v.len();
    let l: usize = i % 32;
    let (s, m): (u8, u8) = k4_scale_min(v, at + 4, i / 32);
    Code {
        scale: s as i16,
        q: nibble_of(v[at + 16 + i / 64 * 32 + l], i % 64 >= 32) as i16,
        min: m as i16,
    }
}

fn q5_code(v: &Vec<u8>, at: usize, i: usize) -> (c: Code)
    requires
        i < 256,
        at + 176 <= v@.len(),
    ensures
        c == code_of(TensorType::Q5K, v@, at as int, i as int),
{
    let n: usize = v.len();
    let l: usize = i % 32;
    let (s, m): (u8, u8) = k4_scale_min(v, at + 4, i / 32);
    let q: i16 = nibble_of(v[at + 48 + i / 64 * 32 + l], i % 64 >= 32) as i16;
    Code {
        scale: s as i16,
        q: if bit_of(v[at + 16 + l], i / 32) {
            q + 16
        } else {
            q
        },
        min: m as i16,
    }
}

fn q6_code(v: &Vec<u8>, at: usize, i: usize) -> (c: Code)
    requires
        i < 256,
        at + 210 <= v@.len(),
    ensures
        c == code_of(TensorType::Q6K, v@, at as int, i as int),
{
    let n: usize = v.len();
    let l: usize = i % 32;
    let quarter: usize = i % 128 / 32;
    let sb: u8 = v[at + 192 + i / 128 * 8 + 2 * quarter + l / 16];
    let scale: i16 = if sb >= 128 {
        sb as i16 - 256
    } else {
        sb as i16
    };
    let low: u8 = nibble_of(v[at + i / 128 * 64 + quarter % 2 * 32 + l], quarter >= 2);
    let high: u8 = pair_of(v[at + 128 + i / 128 * 32 + l], quarter);
    Code { scale, q: low as i16 + high as i16 * 16 - 32, min: 0 }
}

fn one_code(ty: TensorType, v: &Vec<u8>, at: usize, i: usize) -> (c: Code)
    requires
        tensors::is_k_quant(ty),
        i < 256,
        at + block_len(ty) <= v@.len(),
    ensures
        c == code_of(ty, v@, at as int, i as int),
{
    match ty {
        TensorType::Q2K => q2_code(v, at, i),
        TensorType::Q3K => q3_code(v, at, i),
        TensorType::Q4K => q4_code(v, at, i),
        TensorType::Q5K => q5_code(v, at, i),
        _ => q6_code(v, at, i),
    }
}

/// The codes of the 256 weights of the block at `at`.
pub fn dequant_block(ty: TensorType, v: &Vec<u8>, at: usize) -> (c: Vec<Code>)
    requires
        tensors::is_k_quant(ty),
        at + block_len(ty) <= v@.len(),
    ensures
        c@.len() == 256,
        forall|i: int| 0 <= i < 256 ==> #[trigger] c@[i] == code_of(ty, v@, at as int, i),
{
    let mut c: Vec<Code> = Vec::new();
    let mut i: usize = 0;
    while i < 256
        invariant
            i <= 256,
            tensors::is_k_quant(ty),
            at + block_len(ty) <= v@.len(),
            c@.len() == i,
            forall|k: int| 0 <= k < i ==> #[trigger] c@[k] == code_of(ty, v@, at as int, k),
        decreases 256 - i,
    {
        c.push(one_code(ty, v, at, i));
        i = i + 1;
    }
    c
}

/// Where a block's scale stands, and its minimum where it has one.
pub open spec fn scale_at(ty: TensorType) -> (int, Option<int>) {
    match ty {
        TensorType::Q2K => (80, Some(82)),
        TensorType::Q3K => (108, None),
        TensorType::Q4K => (0, Some(2)),
        TensorType::Q5K => (0, Some(2)),
        _ => (208, None),
    }
}

pub open spec fn half_at(v: Seq<u8>, at: int) -> int {
    v[at] + 256 * v[at + 1]
}

fn read_half(v: &Vec<u8>, at: usize) -> (h: u16)
    requires
        at + 2 <= v@.len(),
    ensures
        h == half_at(v@, at as int),
{
    let n: usize = v.len();
    v[at] as u16 + 256 * v[at + 1] as u16
}

/// A block's scale and minimum as bits of 32-bit floats; the minimum is zero
/// where the encoding has none.
pub fn block_scales(ty: TensorType, v: &Vec<u8>, at: usize) -> (r: (u32, u32))
    requires
        tensors::is_k_quant(ty),
        at + block_len(ty) <= v@.len(),
    ensures
        r.0 == widened(half_at(v@, at + scale_at(ty).0) as u16),
        r.1 == match scale_at(ty).1 {
            Some(o) => widened(half_at(v@, at + o) as u16),
            None => 0,
        },
{
    let n: usize = v.len();
    match ty {
        TensorType::Q2K => (f16_to_f32(read_half(v, at + 80)), f16_to_f32(read_half(v, at + 82))),
        TensorType::Q3K => (f16_to_f32(read_half(v, at + 108)), 0),
        TensorType::Q4K => (f16_to_f32(read_half(v, at)), f16_to_f32(read_half(v, at + 2))),
        TensorType::Q5K => (f16_to_f32(read_half(v, at)), f16_to_f32(read_half(v, at + 2))),
        _ => (f16_to_f32(read_half(v, at + 208)), 0),
    }
}

/// A block's fields: code `i` of the block at `at`.
#[verifier::opaque]
pub open spec fn q_of(ty: TensorType, v: Seq<u8>, at: int, i: int) -> int {
    code_of(ty, v, at, i).q as int
}

#[verifier::opaque]
pub open spec fn scale_of(ty: TensorType, v: Seq<u8>, at: int, i: int) -> int {
    code_of(ty, v, at, i).scale as int
}

#[verifier::opaque]
pub open spec fn min_of(ty: TensorType, v: Seq<u8>, at: int, i: int) -> int {
    code_of(ty, v, at, i).min as int
}

/// The eight scales and minima of a block, one for 32 weights each, pack
/// into the twelve bytes behind the block's two floats: six low bits each,
/// and the rest spread over the first eight bytes.
pub open spec fn scales_pack(ty: TensorType, v: Seq<u8>, at: int) -> bool {
    &&& forall|j: int, l: int|
        #![trigger scale_of(ty, v, at, 32 * j + l)]
        0 <= j < 8 && 0 <= l < 32 ==> scale_of(ty, v, at, 32 * j + l) == scale_of(ty, v, at, 32 * j)
            && min_of(ty, v, at, 32 * j + l) == min_of(ty, v, at, 32 * j)
    &&& forall|j: int|
        0 <= j < 8 ==> 0 <= #[trigger] scale_of(ty, v, at, 32 * j) < 64 && 0 <= min_of(
            ty,
            v,
            at,
            32 * j,
        ) < 64
    &&& forall|j: int|
        0 <= j < 4 ==> #[trigger] v[at + 4 + j] == scale_of(ty, v, at, 32 * j) + 64 * (scale_of(
            ty,
            v,
            at,
            32 * (j + 4),
        ) / 16)
    &&& forall|j: int|
        0 <= j < 4 ==> #[trigger] v[at + 8 + j] == min_of(ty, v, at, 32 * j) + 64 * (min_of(
            ty,
            v,
            at,
            32 * (j + 4),
        ) / 16)
    &&& forall|j: int|
        0 <= j < 4 ==> #[trigger] v[at + 12 + j] == scale_of(ty, v, at, 32 * (j + 4)) % 16 + 16 * (
        min_of(ty, v, at, 32 * (j + 4)) % 16)
}

proof fn lemma_scale(ty: TensorType, v: Seq<u8>, at: int, j: int, l: int)
    requires
        ty == TensorType::Q4K || ty == TensorType::Q5K,
        0 <= j < 8,
        0 <= l < 32,
    ensures
        scale_of(ty, v, at, 32 * j + l) == scale_min(v, at + 4, j).0,
        min_of(ty, v, at, 32 * j + l) == scale_min(v, at + 4, j).1,
        0 <= scale_min(v, at + 4, j).0 < 64,
        0 <= scale_min(v, at + 4, j).1 < 64,
{
    reveal(q_of);
    reveal(scale_of);
    reveal(min_of);
    assert((32 * j + l) / 32 == j);
}

proof fn lemma_scale_bytes(v: Seq<u8>, at: int, j: int)
    requires
        0 <= j < 4,
    ensures
        v[at + j] == scale_min(v, at, j).0 + 64 * (scale_min(v, at, j + 4).0 / 16),
        v[at + 4 + j] == scale_min(v, at, j).1 + 64 * (scale_min(v, at, j + 4).1 / 16),
        v[at + 8 + j] == scale_min(v, at, j + 4).0 % 16 + 16 * (scale_min(v, at, j + 4).1 % 16),
{
    let a = v[at + j];
    let b = v[at + 4 + j];
    let c = v[at + 8 + j];
    assert(at + j + 4 == at + 4 + j && at + (j + 4) + 4 == at + 8 + j && at + (j + 4) - 4 == at + j);
    assert(a == a % 64 + 64 * (a / 64) && b == b % 64 + 64 * (b / 64) && c == c % 16 + 16 * (c / 16));
    assert((c % 16 + a / 64 * 16) / 16 == a / 64 && (c % 16 + a / 64 * 16) % 16 == c % 16);
    assert((c / 16 + b / 64 * 16) / 16 == b / 64 && (c / 16 + b / 64 * 16) % 16 == c / 16);
}

proof fn lemma_scales_pack(ty: TensorType, v: Seq<u8>, at: int)
    requires
        ty == TensorType::Q4K || ty == TensorType::Q5K,
    ensures
        scales_pack(ty, v, at),
{
    assert forall|j: int, l: int|
        #![trigger scale_of(ty, v, at, 32 * j + l)]
        0 <= j < 8 && 0 <= l < 32 implies scale_of(ty, v, at, 32 * j + l) == scale_of(
        ty,
        v,
        at,
        32 * j,
    ) && min_of(ty, v, at, 32 * j + l) == min_of(ty, v, at, 32 * j) by {
        lemma_scale(ty, v, at, j, l);
        lemma_scale(ty, v, at, j, 0);
    }
    assert forall|j: int| 0 <= j < 8 implies 0 <= #[trigger] scale_of(ty, v, at, 32 * j) < 64 && 0
        <= min_of(ty, v, at, 32 * j) < 64 by {
        lemma_scale(ty, v, at, j, 0);
    }
    assert forall|j: int| 0 <= j < 4 implies #[trigger] v[at + 4 + j] == scale_of(ty, v, at, 32 * j)
        + 64 * (scale_of(ty, v, at, 32 * (j + 4)) / 16) by {
        lemma_scale(ty, v, at, j, 0);
        lemma_scale(ty, v, at, j + 4, 0);
        lemma_scale_bytes(v, at + 4, j);
    }
    assert forall|j: int| 0 <= j < 4 implies #[trigger] v[at + 8 + j] == min_of(ty, v, at, 32 * j)
        + 64 * (min_of(ty, v, at, 32 * (j + 4)) / 16) by {
        lemma_scale(ty, v, at, j, 0);
        lemma_scale(ty, v, at, j + 4, 0);
        lemma_scale_bytes(v, at + 4, j);
    }
    assert forall|j: int| 0 <= j < 4 implies #[trigger] v[at + 12 + j] == scale_of(
        ty,
        v,
        at,
        32 * (j + 4),
    ) % 16 + 16 * (min_of(ty, v, at, 32 * (j + 4)) % 16) by {
        lemma_scale(ty, v, at, j + 4, 0);
        lemma_scale_bytes(v, at + 4, j);
    }
}

/// A four-bit block holds its codes two to a byte: the first 32 of each 64
/// in the low halves of 32 bytes, the next 32 in the high halves.
pub proof fn four_bits_pack(v: Seq<u8>, at: int, j: int, l: int)
    requires
        0 <= j < 4,
        0 <= l < 32,
    ensures
        0 <= q_of(TensorType::Q4K, v, at, 64 * j + l) < 16,
        0 <= q_of(TensorType::Q4K, v, at, 64 * j + 32 + l) < 16,
        16 * q_of(TensorType::Q4K, v, at, 64 * j + 32 + l) + q_of(
            TensorType::Q4K,
            v,
            at,
            64 * j + l,
        ) == v[at + 16 + 32 * j + l],
        scales_pack(TensorType::Q4K, v, at),
{
    reveal(q_of);
    reveal(scale_of);
    reveal(min_of);
    let a = 64 * j + l;
    let b = 64 * j + 32 + l;
    assert(a / 64 == j && a % 64 == l && a % 32 == l);
    assert(b / 64 == j && b % 64 == 32 + l && b % 32 == l);
    lemma_scales_pack(TensorType::Q4K, v, at);
}

proof fn lemma_q5(v: Seq<u8>, at: int, k: int, l: int)
    requires
        0 <= k < 8,
        0 <= l < 32,
    ensures
        q_of(TensorType::Q5K, v, at, 32 * k + l) == nibble(
            v[at + 48 + 32 * (k / 2) + l],
            k % 2 == 1,
        ) + 16 * one_if(bit(v[at + 16 + l], k)),
        q_of(TensorType::Q5K, v, at, 32 * k + l) % 16 == nibble(
            v[at + 48 + 32 * (k / 2) + l],
            k % 2 == 1,
        ),
        q_of(TensorType::Q5K, v, at, 32 * k + l) / 16 == one_if(bit(v[at + 16 + l], k)),
        0 <= nibble(v[at + 48 + 32 * (k / 2) + l], k % 2 == 1) < 16,
{
    reveal(q_of);
    reveal(scale_of);
    reveal(min_of);
    let i = 32 * k + l;
    assert(i / 64 == k / 2 && (i % 64 >= 32) == (k % 2 == 1) && i % 32 == l && i / 32 == k);
    lemma_pairs(v[at + 48 + 32 * (k / 2) + l]);
}

/// A five-bit block holds the low four bits as a four-bit block does, and
/// the fifth bits of eight codes 32 apart in one byte.
pub proof fn five_bits_pack(v: Seq<u8>, at: int, j: int, l: int)
    requires
        0 <= j < 4,
        0 <= l < 32,
    ensures
        forall|k: int| 0 <= k < 8 ==> 0 <= #[trigger] q_of(TensorType::Q5K, v, at, 32 * k + l) < 32,
        16 * (q_of(TensorType::Q5K, v, at, 64 * j + 32 + l) % 16) + q_of(
            TensorType::Q5K,
            v,
            at,
            64 * j + l,
        ) % 16 == v[at + 48 + 32 * j + l],
        q_of(TensorType::Q5K, v, at, l) / 16 + 2 * (q_of(TensorType::Q5K, v, at, 32 + l) / 16) + 4
            * (q_of(TensorType::Q5K, v, at, 64 + l) / 16) + 8 * (q_of(TensorType::Q5K, v, at, 96 + l)
            / 16) + 16 * (q_of(TensorType::Q5K, v, at, 128 + l) / 16) + 32 * (q_of(
            TensorType::Q5K,
            v,
            at,
            160 + l,
        ) / 16) + 64 * (q_of(TensorType::Q5K, v, at, 192 + l) / 16) + 128 * (q_of(
            TensorType::Q5K,
            v,
            at,
            224 + l,
        ) / 16) == v[at + 16 + l],
        scales_pack(TensorType::Q5K, v, at),
{
    let ty = TensorType::Q5K;
    assert forall|k: int| 0 <= k < 8 implies 0 <= #[trigger] q_of(ty, v, at, 32 * k + l) < 32 by {
        lemma_q5(v, at, k, l);
    }
    lemma_q5(v, at, 2 * j, l);
    lemma_q5(v, at, 2 * j + 1, l);
    assert((2 * j) / 2 == j && (2 * j + 1) / 2 == j && (2 * j) % 2 == 0 && (2 * j + 1) % 2 == 1);
    assert(32 * (2 * j) + l == 64 * j + l && 32 * (2 * j + 1) + l == 64 * j + 32 + l);
    lemma_pairs(v[at + 48 + 32 * j + l]);
    lemma_bits(v[at + 16 + l]);
    lemma_q5(v, at, 0, l);
    lemma_q5(v, at, 1, l);
    lemma_q5(v, at, 2, l);
    lemma_q5(v, at, 3, l);
    lemma_q5(v, at, 4, l);
    lemma_q5(v, at, 5, l);
    lemma_q5(v, at, 6, l);
    lemma_q5(v, at, 7, l);
    lemma_scales_pack(ty, v, at);
}

/// A bit as a number.
pub open spec fn one_if(b: bool) -> int {
    if b {
        1
    } else {
        0
    }
}

proof fn lemma_pairs(b: u8)
    ensures
        pair(b, 0) + 4 * pair(b, 1) + 16 * pair(b, 2) + 64 * pair(b, 3) == b,
        0 <= pair(b, 0) < 4,
        0 <= pair(b, 1) < 4,
        0 <= pair(b, 2) < 4,
        0 <= pair(b, 3) < 4,
        0 <= nibble(b, false) < 16,
        0 <= nibble(b, true) < 16,
        nibble(b, false) + 16 * nibble(b, true) == b,
{
    assert(b % 4 + 4 * (b / 4 % 4) + 16 * (b / 16 % 4) + 64 * (b / 64) == b && b / 64 < 4)
        by (bit_vector);
}

proof fn lemma_pair_bits(b: u8, k: int)
    requires
        0 <= k < 4,
    ensures
        pair(b, k) == one_if(bit(b, 2 * k)) + 2 * one_if(bit(b, 2 * k + 1)),
{
    lemma_pairs(b);
    assert((2 * k) / 2 == k && (2 * k) % 2 == 0 && (2 * k + 1) / 2 == k && (2 * k + 1) % 2 == 1);
    let p = pair(b, k);
    assert(p == 0 || p == 1 || p == 2 || p == 3);
}

/// A byte is the sum of its bits, and of its pairs, each at its place.
pub proof fn lemma_bits(b: u8)
    ensures
        one_if(bit(b, 0)) + 2 * one_if(bit(b, 1)) + 4 * one_if(bit(b, 2)) + 8 * one_if(bit(b, 3))
            + 16 * one_if(bit(b, 4)) + 32 * one_if(bit(b, 5)) + 64 * one_if(bit(b, 6)) + 128
            * one_if(bit(b, 7)) == b,
        pair(b, 0) + 4 * pair(b, 1) + 16 * pair(b, 2) + 64 * pair(b, 3) == b,
        0 <= pair(b, 0) < 4,
        0 <= pair(b, 1) < 4,
        0 <= pair(b, 2) < 4,
        0 <= pair(b, 3) < 4,
        0 <= nibble(b, false) < 16,
        0 <= nibble(b, true) < 16,
        nibble(b, false) + 16 * nibble(b, true) == b,
{
    lemma_pairs(b);
    lemma_pair_bits(b, 0);
    lemma_pair_bits(b, 1);
    lemma_pair_bits(b, 2);
    lemma_pair_bits(b, 3);
}

proof fn lemma_q6(v: Seq<u8>, at: int, h: int, k: int, l: int)
    requires
        0 <= h < 2,
        0 <= k < 4,
        0 <= l < 32,
    ensures
        q_of(TensorType::Q6K, v, at, 128 * h + 32 * k + l) + 32 == nibble(
            v[at + 64 * h + 32 * (k % 2) + l],
            k >= 2,
        ) + 16 * pair(v[at + 128 + 32 * h + l], k),
        (q_of(TensorType::Q6K, v, at, 128 * h + 32 * k + l) + 32) % 16 == nibble(
            v[at + 64 * h + 32 * (k % 2) + l],
            k >= 2,
        ),
        (q_of(TensorType::Q6K, v, at, 128 * h + 32 * k + l) + 32) / 16 == pair(
            v[at + 128 + 32 * h + l],
            k,
        ),
        0 <= nibble(v[at + 64 * h + 32 * (k % 2) + l], k >= 2) < 16,
        0 <= pair(v[at + 128 + 32 * h + l], k) < 4,
{
    reveal(q_of);
    reveal(scale_of);
    reveal(min_of);
    let i = 128 * h + 32 * k + l;
    assert(i / 128 == h && i % 128 / 32 == k && i % 32 == l);
    let b = v[at + 64 * h + 32 * (k % 2) + l];
    let c = v[at + 128 + 32 * h + l];
    lemma_pairs(b);
    lemma_pairs(c);
    let low = nibble(b, k >= 2);
    let high = pair(c, k);
    assert(0 <= low < 16 && 0 <= high < 4) by {
        assert(k == 0 || k == 1 || k == 2 || k == 3);
    }
    assert(at + i / 128 * 64 + i % 128 / 32 % 2 * 32 + l == at + 64 * h + 32 * (k % 2) + l);
    assert(at + 128 + i / 128 * 32 + l == at + 128 + 32 * h + l);
    assert(code_of(TensorType::Q6K, v, at, i).q == (low + high * 16 - 32) as i16);
    lemma_low_high(low, high, 16);
}

proof fn lemma_low_high(low: int, high: int, n: int)
    requires
        0 <= low < n,
        n == 16 || n == 4,
    ensures
        (low + n * high) % n == low,
        (low + n * high) / n == high,
{
    if n == 16 {
        assert((low + 16 * high) % 16 == low && (low + 16 * high) / 16 == high);
    } else {
        assert((low + 4 * high) % 4 == low && (low + 4 * high) / 4 == high);
    }
}

proof fn lemma_q6_scale(v: Seq<u8>, at: int, j: int, t: int)
    requires
        0 <= j < 16,
        0 <= t < 16,
    ensures
        scale_of(TensorType::Q6K, v, at, 16 * j + t) == signed(v[at + 192 + j]),
        min_of(TensorType::Q6K, v, at, 16 * j + t) == 0,
{
    reveal(q_of);
    reveal(scale_of);
    reveal(min_of);
    let i = 16 * j + t;
    let h = j / 8;
    let k = j % 8 / 2;
    assert(i / 128 == h && i % 128 / 32 == k && i % 32 / 16 == j % 2);
    assert(8 * h + 2 * k + j % 2 == j);
}

/// A six-bit block holds the low four bits of codes 64 apart in one byte,
/// and the high two of four codes 32 apart in another; codes count from -32,
/// and a signed byte scales each sixteen.
pub proof fn six_bits_pack(v: Seq<u8>, at: int, h: int, l: int)
    requires
        0 <= h < 2,
        0 <= l < 32,
    ensures
        ({
            let a = q_of(TensorType::Q6K, v, at, 128 * h + l) + 32;
            let b = q_of(TensorType::Q6K, v, at, 128 * h + 32 + l) + 32;
            let c = q_of(TensorType::Q6K, v, at, 128 * h + 64 + l) + 32;
            let d = q_of(TensorType::Q6K, v, at, 128 * h + 96 + l) + 32;
            &&& 0 <= a < 64 && 0 <= b < 64 && 0 <= c < 64 && 0 <= d < 64
            &&& a % 16 + 16 * (c % 16) == v[at + 64 * h + l]
            &&& b % 16 + 16 * (d % 16) == v[at + 64 * h + 32 + l]
            &&& a / 16 + 4 * (b / 16) + 16 * (c / 16) + 64 * (d / 16) == v[at + 128 + 32 * h + l]
        }),
        forall|j: int, t: int|
            #![trigger scale_of(TensorType::Q6K, v, at, 16 * j + t)]
            0 <= j < 16 && 0 <= t < 16 ==> -128 <= scale_of(TensorType::Q6K, v, at, 16 * j + t)
                < 128 && scale_of(TensorType::Q6K, v, at, 16 * j + t) % 256 == v[at + 192 + j]
                && min_of(TensorType::Q6K, v, at, 16 * j + t) == 0,
{
    let ty = TensorType::Q6K;
    lemma_q6(v, at, h, 0, l);
    lemma_q6(v, at, h, 1, l);
    lemma_q6(v, at, h, 2, l);
    lemma_q6(v, at, h, 3, l);
    lemma_pairs(v[at + 64 * h + l]);
    lemma_pairs(v[at + 64 * h + 32 + l]);
    lemma_pairs(v[at + 128 + 32 * h + l]);
    assert forall|j: int, t: int|
        #![trigger scale_of(ty, v, at, 16 * j + t)]
        0 <= j < 16 && 0 <= t < 16 implies -128 <= scale_of(ty, v, at, 16 * j + t) < 128
        && scale_of(ty, v, at, 16 * j + t) % 256 == v[at + 192 + j] && min_of(
        ty,
        v,
        at,
        16 * j + t,
    ) == 0 by {
        lemma_q6_scale(v, at, j, t);
    }
}

/// A two-bit block holds four codes 32 apart in one byte, and the scale and
/// minimum of each sixteen in the two halves of one.
pub proof fn two_bits_pack(v: Seq<u8>, at: int, h: int, l: int)
    requires
        0 <= h < 2,
        0 <= l < 32,
    ensures
        ({
            let a = q_of(TensorType::Q2K, v, at, 128 * h + l);
            let b = q_of(TensorType::Q2K, v, at, 128 * h + 32 + l);
            let c = q_of(TensorType::Q2K, v, at, 128 * h + 64 + l);
            let d = q_of(TensorType::Q2K, v, at, 128 * h + 96 + l);
            &&& 0 <= a < 4 && 0 <= b < 4 && 0 <= c < 4 && 0 <= d < 4
            &&& a + 4 * b + 16 * c + 64 * d == v[at + 16 + 32 * h + l]
        }),
        forall|j: int, t: int|
            #![trigger scale_of(TensorType::Q2K, v, at, 16 * j + t)]
            0 <= j < 16 && 0 <= t < 16 ==> {
                let s = scale_of(TensorType::Q2K, v, at, 16 * j + t);
                let m = min_of(TensorType::Q2K, v, at, 16 * j + t);
                0 <= s < 16 && 0 <= m < 16 && s + 16 * m == v[at + j]
            },
{
    reveal(q_of);
    reveal(scale_of);
    reveal(min_of);
    let ty = TensorType::Q2K;
    let a = 128 * h + l;
    let b = 128 * h + 32 + l;
    let c = 128 * h + 64 + l;
    let d = 128 * h + 96 + l;
    assert(a / 128 == h && a % 128 / 32 == 0 && a % 32 == l);
    assert(b / 128 == h && b % 128 / 32 == 1 && b % 32 == l);
    assert(c / 128 == h && c % 128 / 32 == 2 && c % 32 == l);
    assert(d / 128 == h && d % 128 / 32 == 3 && d % 32 == l);
    lemma_pairs(v[at + 16 + 32 * h + l]);
    assert forall|j: int, t: int|
        #![trigger scale_of(ty, v, at, 16 * j + t)]
        0 <= j < 16 && 0 <= t < 16 implies ({
        let s = scale_of(ty, v, at, 16 * j + t);
        let m = min_of(ty, v, at, 16 * j + t);
        0 <= s < 16 && 0 <= m < 16 && s + 16 * m == v[at + j]
    }) by {
        let i = 16 * j + t;
        assert(i / 16 == j);
        lemma_pairs(v[at + j]);
    }
}

proof fn lemma_q3(v: Seq<u8>, at: int, h: int, k: int, l: int)
    requires
        0 <= h < 2,
        0 <= k < 4,
        0 <= l < 32,
    ensures
        q_of(TensorType::Q3K, v, at, 128 * h + 32 * k + l) + 4 == pair(
            v[at + 32 + 32 * h + l],
            k,
        ) + 4 * one_if(bit(v[at + l], 4 * h + k)),
        (q_of(TensorType::Q3K, v, at, 128 * h + 32 * k + l) + 4) % 4 == pair(
            v[at + 32 + 32 * h + l],
            k,
        ),
        (q_of(TensorType::Q3K, v, at, 128 * h + 32 * k + l) + 4) / 4 == one_if(
            bit(v[at + l], 4 * h + k),
        ),
        0 <= pair(v[at + 32 + 32 * h + l], k) < 4,
{
    reveal(q_of);
    reveal(scale_of);
    reveal(min_of);
    let i = 128 * h + 32 * k + l;
    assert(i / 128 == h && i % 128 / 32 == k && i % 32 == l && i / 32 == 4 * h + k);
    lemma_pairs(v[at + 32 + 32 * h + l]);
}

/// A three-bit block holds the low pairs of four codes 32 apart in one byte
/// and the third bits of eight in another; codes count from -4. Scales count
/// from -32: their low halves stand two to a byte, eight apart, and their
/// high pairs four to a byte, four apart.
pub proof fn three_bits_pack(v: Seq<u8>, at: int, h: int, l: int)
    requires
        0 <= h < 2,
        0 <= l < 32,
    ensures
        ({
            let ty = TensorType::Q3K;
            let a = q_of(ty, v, at, 128 * h + l) + 4;
            let b = q_of(ty, v, at, 128 * h + 32 + l) + 4;
            let c = q_of(ty, v, at, 128 * h + 64 + l) + 4;
            let d = q_of(ty, v, at, 128 * h + 96 + l) + 4;
            &&& 0 <= a < 8 && 0 <= b < 8 && 0 <= c < 8 && 0 <= d < 8
            &&& a % 4 + 4 * (b % 4) + 16 * (c % 4) + 64 * (d % 4) == v[at + 32 + 32 * h + l]
            &&& (q_of(ty, v, at, l) + 4) / 4 + 2 * ((q_of(ty, v, at, 32 + l) + 4) / 4) + 4 * ((q_of(
                ty,
                v,
                at,
                64 + l,
            ) + 4) / 4) + 8 * ((q_of(ty, v, at, 96 + l) + 4) / 4) + 16 * ((q_of(ty, v, at, 128 + l)
                + 4) / 4) + 32 * ((q_of(ty, v, at, 160 + l) + 4) / 4) + 64 * ((q_of(
                ty,
                v,
                at,
                192 + l,
            ) + 4) / 4) + 128 * ((q_of(ty, v, at, 224 + l) + 4) / 4) == v[at + l]
        }),
        forall|j: int, t: int|
            #![trigger scale_of(TensorType::Q3K, v, at, 16 * j + t)]
            0 <= j < 16 && 0 <= t < 16 ==> scale_of(TensorType::Q3K, v, at, 16 * j + t) == scale_of(
                TensorType::Q3K,
                v,
                at,
                16 * j,
            ) && -32 <= scale_of(TensorType::Q3K, v, at, 16 * j + t) < 32 && min_of(
                TensorType::Q3K,
                v,
                at,
                16 * j + t,
            ) == 0,
        forall|j: int|
            0 <= j < 8 ==> (scale_of(TensorType::Q3K, v, at, 16 * j) + 32) % 16 + 16 * ((scale_of(
                TensorType::Q3K,
                v,
                at,
                16 * (j + 8),
            ) + 32) % 16) == #[trigger] v[at + 96 + j],
        forall|t: int|
            0 <= t < 4 ==> (scale_of(TensorType::Q3K, v, at, 16 * t) + 32) / 16 + 4 * ((scale_of(
                TensorType::Q3K,
                v,
                at,
                16 * (t + 4),
            ) + 32) / 16) + 16 * ((scale_of(TensorType::Q3K, v, at, 16 * (t + 8)) + 32) / 16) + 64
                * ((scale_of(TensorType::Q3K, v, at, 16 * (t + 12)) + 32) / 16)
                == #[trigger] v[at + 104 + t],
{
    let ty = TensorType::Q3K;
    lemma_pairs(v[at + 32 + 32 * h + l]);
    lemma_q3(v, at, 0, 0, l);
    lemma_q3(v, at, 0, 1, l);
    lemma_q3(v, at, 0, 2, l);
    lemma_q3(v, at, 0, 3, l);
    lemma_q3(v, at, 1, 0, l);
    lemma_q3(v, at, 1, 1, l);
    lemma_q3(v, at, 1, 2, l);
    lemma_q3(v, at, 1, 3, l);
    lemma_bits(v[at + l]);
    assert forall|j: int, t: int|
        #![trigger scale_of(ty, v, at, 16 * j + t)]
        0 <= j < 16 && 0 <= t < 16 implies scale_of(ty, v, at, 16 * j + t) == scale_of(
        ty,
        v,
        at,
        16 * j,
    ) && scale_of(ty, v, at, 16 * j) == q3_scale(v, at, j) && -32 <= scale_of(
        ty,
        v,
        at,
        16 * j + t,
    ) < 32 && min_of(ty, v, at, 16 * j + t) == 0 by {
        lemma_q3_scale(v, at, j, t);
        lemma_q3_scale(v, at, j, 0);
    }
    assert forall|j: int| 0 <= j < 8 implies (scale_of(ty, v, at, 16 * j) + 32) % 16 + 16 * ((
    scale_of(ty, v, at, 16 * (j + 8)) + 32) % 16) == #[trigger] v[at + 96 + j] by {
        lemma_q3_scale(v, at, j, 0);
        lemma_q3_scale(v, at, j + 8, 0);
        lemma_pairs(v[at + 96 + j]);
        assert(at + 88 + (j + 8) == at + 96 + j);
    }
    assert forall|t: int| 0 <= t < 4 implies (scale_of(ty, v, at, 16 * t) + 32) / 16 + 4 * ((
    scale_of(ty, v, at, 16 * (t + 4)) + 32) / 16) + 16 * ((scale_of(ty, v, at, 16 * (t + 8)) + 32)
        / 16) + 64 * ((scale_of(ty, v, at, 16 * (t + 12)) + 32) / 16)
        == #[trigger] v[at + 104 + t] by {
        lemma_q3_scale(v, at, t, 0);
        lemma_q3_scale(v, at, t + 4, 0);
        lemma_q3_scale(v, at, t + 8, 0);
        lemma_q3_scale(v, at, t + 12, 0);
        lemma_pairs(v[at + 104 + t]);
        assert(t % 4 == t && (t + 4) % 4 == t && (t + 8) % 4 == t && (t + 12) % 4 == t);
        assert(t / 4 == 0 && (t + 4) / 4 == 1 && (t + 8) / 4 == 2 && (t + 12) / 4 == 3);
    }
}

proof fn lemma_q3_scale(v: Seq<u8>, at: int, j: int, t: int)
    requires
        0 <= j < 16,
        0 <= t < 16,
    ensures
        scale_of(TensorType::Q3K, v, at, 16 * j + t) == q3_scale(v, at, j),
        -32 <= q3_scale(v, at, j) < 32,
        min_of(TensorType::Q3K, v, at, 16 * j + t) == 0,
        ({
            let low = if j < 8 {
                nibble(v[at + 96 + j], false)
            } else {
                nibble(v[at + 88 + j], true)
            };
            (q3_scale(v, at, j) + 32) % 16 == low && (q3_scale(v, at, j) + 32) / 16 == pair(
                v[at + 104 + j % 4],
                j / 4,
            )
        }),
{
    reveal(q_of);
    reveal(scale_of);
    reveal(min_of);
    assert((16 * j + t) / 16 == j);
    lemma_pairs(v[at + 104 + j % 4]);
    lemma_pairs(v[at + 96 + j]);
    lemma_pairs(v[at + 88 + j]);
    let k = j / 4;
    assert(k == 0 || k == 1 || k == 2 || k == 3);
    let p = pair(v[at + 104 + j % 4], k);
    let low = if j < 8 {
        nibble(v[at + 96 + j], false)
    } else {
        nibble(v[at + 88 + j], true)
    };
    assert(0 <= p < 4 && 0 <= low < 16);
    assert((low + p * 16) % 16 == low && (low + p * 16) / 16 == p);
}

/// A block's fields lie side by side and fill it: the codes and their scales
/// take what these laws say of them, and two bytes per block float are left,
/// low byte first.
pub proof fn block_floats_fill_the_block(v: Seq<u8>, at: int)
    ensures
        block_len(TensorType::Q2K) == 16 + 64 + 4 && scale_at(TensorType::Q2K) == (
            16 + 64int,
            Some(16 + 64 + 2int),
        ),
        block_len(TensorType::Q3K) == 32 + 64 + 12 + 2 && scale_at(TensorType::Q3K) == (
            32 + 64 + 12int,
            None::<int>,
        ),
        block_len(TensorType::Q4K) == 4 + 12 + 128 && scale_at(TensorType::Q4K) == (
            0int,
            Some(2int),
        ),
        block_len(TensorType::Q5K) == 4 + 12 + 32 + 128 && scale_at(TensorType::Q5K) == (
            0int,
            Some(2int),
        ),
        block_len(TensorType::Q6K) == 128 + 64 + 16 + 2 && scale_at(TensorType::Q6K) == (
            128 + 64 + 16int,
            None::<int>,
        ),
        half_at(v, at) % 256 == v[at],
        half_at(v, at) / 256 == v[at + 1],
        0 <= half_at(v, at) < 0x1_0000,
{
}

/// Zero and what is not finite keep their kind: a half zero widens to zero,
/// an infinite one to infinity, and a fraction beside the largest exponent
/// stays a fraction there.
pub proof fn widening_keeps_kinds(h: u16)
    ensures
        widened(h) / 0x8000_0000 == half_sign(h),
        half_units(h) == 0 ==> widened(h) % 0x8000_0000 == 0,
        half_exp(h) == 31 ==> (widened(h) / 0x80_0000) % 256 == 255 && widened(h) % 0x80_0000
            == half_frac(h) * two_to(13),
{
    assert(two_to(13) == 8192) by {
        reveal_with_fuel(two_to, 14);
    }
    let m = half_frac(h);
    if half_exp(h) == 0 && m != 0 {
        lemma_doubled(m, 113);
    }
    if half_exp(h) > 0 {
        let e = half_exp(h);
        lemma_two_to_positive(e - 1);
        assert((1024 + m) * two_to(e - 1) > 0) by (nonlinear_arith)
            requires
                m >= 0,
                two_to(e - 1) > 0,
        ;
    }
}

proof fn lemma_two_to_positive(n: int)
    ensures
        two_to(n) > 0,
    decreases n,
{
    if n > 0 {
        lemma_two_to_positive(n - 1);
    }
}

/// Narrowing keeps the sign and goes to the half float next to zero: what is
/// below the normal range becomes zero, what is above it infinite, and in
/// between the half float is at most the float and the next one is more.
pub proof fn narrowing_goes_toward_zero(b: u32)
    ensures
        ({
            let h = narrowed(b) as u16;
            let e = (b / 0x80_0000) % 256;
            &&& 0 <= narrowed(b) < 0x1_0000
            &&& half_sign(h) == b / 0x8000_0000
            &&& e < 113 ==> half_units(h) == 0
            &&& e > 142 ==> half_exp(h) == 31 && half_frac(h) == 0
            &&& 113 <= e <= 142 ==> {
                &&& 1 <= half_exp(h) < 31
                &&& half_units(h) * two_to(23) <= single_units(b as int)
                &&& single_units(b as int) < (half_units(h) + two_to(half_exp(h) - 1)) * two_to(23)
            }
        }),
{
    let e = ((b / 0x80_0000) % 256) as int;
    let m = (b % 0x80_0000) as int;
    let h = narrowed(b) as u16;
    assert(0 <= m / 8192 < 1024);
    if 113 <= e <= 142 {
        let s = (b / 0x8000_0000) as int;
        let x = e - 112;
        assert(h == s * 0x8000 + x * 1024 + m / 8192);
        assert(half_exp(h) == x);
        assert(half_frac(h) == m / 8192);
        assert(two_to(13) == 8192 && two_to(10) == 1024) by {
            reveal_with_fuel(two_to, 14);
        }
        assert(two_to(23) == 8192 * 1024) by {
            lemma_two_to(13, 10);
        }
        lemma_two_to(x - 1, 10);
        let p = two_to(x - 1);
        lemma_two_to_positive(x - 1);
        assert(two_to(e - 103) == p * 1024);
        let f = m / 8192;
        assert(((1024 + f) * p) * (8192 * 1024) <= (0x80_0000 + m) * (p * 1024)) by (nonlinear_arith)
            requires
                f * 8192 <= m,
                p > 0,
        ;
        assert((0x80_0000 + m) * (p * 1024) < ((1024 + f) * p + p) * (8192 * 1024))
            by (nonlinear_arith)
            requires
                m < (f + 1) * 8192,
                p > 0,
        ;
    }
}

} // verus!
