//! Diagnostics over rows of floats, on their bits.

use vstd::prelude::*;

use crate::floats;

verus! {

/// Bits of minus infinity.
pub const BELOW_ALL: u32 = 0xff80_0000;

/// The two largest of the first `n` values, each minus infinity where there
/// is none.
pub open spec fn top_of(v: Seq<u32>, n: int) -> (u32, u32)
    decreases n,
{
    if n <= 0 {
        (BELOW_ALL, BELOW_ALL)
    } else {
        let (a, b) = top_of(v, n - 1);
        let x = v[n - 1];
        if floats::above(x, a) {
            (x, a)
        } else if floats::above(x, b) {
            (a, x)
        } else {
            (a, b)
        }
    }
}

/// The two largest values of a row.
pub fn top_two(v: &Vec<u32>) -> (r: (u32, u32))
    ensures
        r == top_of(v@, v@.len() as int),
{
    let mut a: u32 = BELOW_ALL;
    let mut b: u32 = BELOW_ALL;
    let mut i: usize = 0;
    while i < v.len()
        invariant
            i <= v@.len(),
            (a, b) == top_of(v@, i as int),
        decreases v@.len() - i,
    {
        let x: u32 = v[i];
        if floats::greater(x, a) {
            b = a;
            a = x;
        } else if floats::greater(x, b) {
            b = x;
        }
        i = i + 1;
    }
    (a, b)
}

/// Nothing is above the first, and at most one value is above the second.
pub proof fn top_two_lead(v: Seq<u32>, n: int)
    requires
        0 <= n <= v.len(),
    ensures
        !floats::is_nan(top_of(v, n).0),
        !floats::is_nan(top_of(v, n).1),
        !floats::above(top_of(v, n).1, top_of(v, n).0),
        forall|i: int| 0 <= i < n ==> !floats::above(#[trigger] v[i], top_of(v, n).0),
        forall|i: int, j: int|
            0 <= i < j < n ==> !(floats::above(#[trigger] v[i], top_of(v, n).1) && floats::above(
                #[trigger] v[j],
                top_of(v, n).1,
            )),
    decreases n,
{
    if n > 0 {
        top_two_lead(v, n - 1);
        let (a, b) = top_of(v, n - 1);
        let x = v[n - 1];
        let (c, d) = top_of(v, n);
        assert forall|i: int, j: int| 0 <= i < j < n implies !(floats::above(#[trigger] v[i], d)
            && floats::above(#[trigger] v[j], d)) by {
            assert(!floats::above(v[i], a));
            if j < n - 1 {
                assert(!(floats::above(v[i], b) && floats::above(v[j], b)));
            }
        }
    }
}

/// How a row's choice compares with the reference's.
#[derive(Clone, Copy, Debug, PartialEq, Eq, Structural)]
pub enum Verdict {
    Match,
    /// The choices differ, by no more than the rows drift.
    Drift,
    Wrong,
}

/// The verdict on a row; `near` says that the reference's lead is no larger
/// than the drift.
pub fn verdict(choice: u32, reference: u32, near: bool) -> (v: Verdict)
    ensures
        v == (if choice == reference {
            Verdict::Match
        } else if near {
            Verdict::Drift
        } else {
            Verdict::Wrong
        }),
{
    if choice == reference {
        Verdict::Match
    } else if near {
        Verdict::Drift
    } else {
        Verdict::Wrong
    }
}

/// The verdict in words.
pub fn verdict_text(v: Verdict) -> (s: &'static str)
    ensures
        s@ == match v {
            Verdict::Match => "match"@,
            Verdict::Drift => "flip within drift"@,
            Verdict::Wrong => "FLIP OUTSIDE DRIFT"@,
        },
{
    match v {
        Verdict::Match => "match",
        Verdict::Drift => "flip within drift",
        Verdict::Wrong => "FLIP OUTSIDE DRIFT",
    }
}

/// `a == b` on floats.
pub open spec fn equal(a: u32, b: u32) -> bool {
    !floats::is_nan(a) && !floats::is_nan(b) && floats::order(a) == floats::order(b)
}

fn same_float(a: u32, b: u32) -> (r: bool)
    ensures
        r == equal(a, b),
{
    let ma: u32 = a % 0x8000_0000;
    let mb: u32 = b % 0x8000_0000;
    ma <= 0x7f80_0000 && mb <= 0x7f80_0000 && ma == mb && (ma == 0 || a == b)
}

/// `n` floats from `i` on equal those from `j` on.
pub open spec fn rows_equal(v: Seq<u32>, i: int, w: Seq<u32>, j: int, n: int) -> bool {
    forall|k: int| 0 <= k < n ==> equal(#[trigger] v[i + k], w[j + k])
}

fn same_rows(v: &Vec<u32>, i: usize, w: &Vec<u32>, j: usize, n: usize) -> (r: bool)
    requires
        i + n <= v@.len(),
        j + n <= w@.len(),
    ensures
        r == rows_equal(v@, i as int, w@, j as int, n as int),
{
    let (lv, lw): (usize, usize) = (v.len(), w.len());
    let mut k: usize = 0;
    while k < n
        invariant
            k <= n,
            i + n <= lv,
            j + n <= lw,
            lv == v@.len(),
            lw == w@.len(),
            forall|m: int| 0 <= m < k ==> equal(#[trigger] v@[i + m], w@[j + m]),
        decreases n - k,
    {
        if !same_float(v[i + k], w[j + k]) {
            assert(!equal(v@[i + k], w@[j + k]));
            return false;
        }
        k = k + 1;
    }
    true
}

/// Whether two rows hold the same floats.
pub fn rows_agree(v: &Vec<u32>, w: &Vec<u32>) -> (r: bool)
    ensures
        r == (v@.len() == w@.len() && rows_equal(v@, 0, w@, 0, v@.len() as int)),
{
    v.len() == w.len() && same_rows(v, 0, w, 0, v.len())
}

/// Values among `n` from `lo` on that are not zero.
pub open spec fn nonzero_in(v: Seq<u32>, lo: int, n: int) -> nat
    decreases n,
{
    if n <= 0 {
        0
    } else {
        nonzero_in(v, lo, n - 1) + (if floats::magnitude(v[lo + n - 1]) != 0 {
            1nat
        } else {
            0nat
        })
    }
}

/// Every one of `n` values from `lo` on is a finite number.
pub open spec fn finite_in(v: Seq<u32>, lo: int, n: int) -> bool {
    forall|k: int| 0 <= k < n ==> floats::magnitude(#[trigger] v[lo + k]) < 0x7f80_0000
}

/// The state of one captured hidden state.
#[derive(Clone, Copy, Debug, PartialEq, Eq, Structural)]
pub struct Slot {
    pub nonzero: usize,
    pub finite: bool,
}

/// The state of the slot of `n` values at `lo`.
pub fn slot_state(v: &Vec<u32>, lo: usize, n: usize) -> (s: Slot)
    requires
        lo + n <= v@.len(),
    ensures
        s.nonzero == nonzero_in(v@, lo as int, n as int),
        s.finite == finite_in(v@, lo as int, n as int),
{
    let len: usize = v.len();
    let mut nonzero: usize = 0;
    let mut finite: bool = true;
    let mut k: usize = 0;
    while k < n
        invariant
            k <= n,
            lo + n <= len,
            len == v@.len(),
            nonzero <= k,
            nonzero == nonzero_in(v@, lo as int, k as int),
            finite == finite_in(v@, lo as int, k as int),
        decreases n - k,
    {
        let m: u32 = v[lo + k] % 0x8000_0000;
        if m != 0 {
            nonzero = nonzero + 1;
        }
        if m >= 0x7f80_0000 {
            assert(floats::magnitude(v@[lo + k]) >= 0x7f80_0000);
            finite = false;
        }
        k = k + 1;
    }
    Slot { nonzero, finite }
}

impl Slot {
    /// Never written, or not made of numbers.
    pub fn is_bad(&self) -> (r: bool)
        ensures
            r == (self.nonzero == 0 || !self.finite),
    {
        self.nonzero == 0 || !self.finite
    }
}

/// The slots before `j` that hold what slot `i` holds, from `i + 1` on.
pub open spec fn twins_of(v: Seq<u32>, width: int, i: int, j: int) -> Seq<(usize, usize)>
    decreases j - i,
{
    if j <= i + 1 {
        Seq::empty()
    } else {
        let before = twins_of(v, width, i, j - 1);
        if rows_equal(v, i * width, v, (j - 1) * width, width) {
            before.push((i as usize, (j - 1) as usize))
        } else {
            before
        }
    }
}

/// Pairs of slots with equal contents, whose first is below `i`.
pub open spec fn twins(v: Seq<u32>, width: int, slots: int, i: int) -> Seq<(usize, usize)>
    decreases i,
{
    if i <= 0 {
        Seq::empty()
    } else {
        twins(v, width, slots, i - 1) + twins_of(v, width, i - 1, slots)
    }
}

/// Every pair of slots that hold the same floats: one has overwritten the
/// other.
pub fn collisions(v: &Vec<u32>, width: usize, slots: usize) -> (r: Vec<(usize, usize)>)
    requires
        slots * width <= v@.len(),
    ensures
        r@ == twins(v@, width as int, slots as int, slots as int),
{
    let len: usize = v.len();
    let mut out: Vec<(usize, usize)> = Vec::new();
    let mut i: usize = 0;
    while i < slots
        invariant
            i <= slots,
            slots * width <= len,
            len == v@.len(),
            out@ == twins(v@, width as int, slots as int, i as int),
        decreases slots - i,
    {
        let ghost before = out@;
        let mut j: usize = i + 1;
        assert(out@ =~= before + twins_of(v@, width as int, i as int, j as int));
        while j < slots
            invariant
                i < j <= slots,
                slots * width <= len,
                len == v@.len(),
                out@ == before + twins_of(v@, width as int, i as int, j as int),
            decreases slots - j,
        {
            proof {
                assert((i + 1) * width <= slots * width) by (nonlinear_arith)
                    requires
                        i + 1 <= slots,
                ;
                assert((j + 1) * width <= slots * width) by (nonlinear_arith)
                    requires
                        j + 1 <= slots,
                ;
                assert((i + 1) * width == i * width + width) by (nonlinear_arith);
                assert((j + 1) * width == j * width + width) by (nonlinear_arith);
                assert(0 <= i * width) by (nonlinear_arith);
                assert(0 <= j * width) by (nonlinear_arith);
            }
            if same_rows(v, i * width, v, j * width, width) {
                out.push((i, j));
                assert(out@ =~= before + twins_of(v@, width as int, i as int, j + 1));
            }
            j = j + 1;
        }
        i = i + 1;
    }
    out
}

/// Faults of a capture: bad slots, equal slots, equal positions, and a
/// second run that points elsewhere.
pub fn capture_faults(bad_slots: usize, equal_slots: usize, same_positions: bool, strays: bool)
    -> (n: u64)
    requires
        bad_slots + equal_slots + 2 <= u64::MAX,
    ensures
        n == bad_slots + equal_slots + (if same_positions {
            1int
        } else {
            0
        }) + (if strays {
            1int
        } else {
            0
        }),
{
    let mut n: u64 = bad_slots as u64 + equal_slots as u64;
    if same_positions {
        n = n + 1;
    }
    if strays {
        n = n + 1;
    }
    n
}

} // verus!
