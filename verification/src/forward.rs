//! How a batch of tokens is cut and checked before it is forwarded.

use vstd::prelude::*;

use crate::shape::{Family, Shape};
use crate::text;

verus! {

/// Tokens `lo..hi` of a batch at positions from `pos` on; `rows` rows of
/// logits are wanted of them.
#[derive(Clone, Copy, Debug, PartialEq, Eq, Structural)]
pub struct Part {
    pub lo: usize,
    pub hi: usize,
    pub pos: u32,
    pub rows: u32,
}

/// The forward graph takes tokens one after another.
pub open spec fn is_sequential(f: Family) -> bool {
    f == Family::Dsv4 || f == Family::Qwen35 || f == Family::K3
}

/// The batch straddles the position where key rows begin to be selected by
/// score.
pub open spec fn straddles(s: &Shape, n: int, pos: int) -> bool {
    !is_sequential(s.family) && s.n_idx_topk > 0 && pos < s.n_idx_topk && pos + n > s.n_idx_topk
        && n > 1
}

/// Rows of logits that `n` tokens give when `rows` are wanted.
pub open spec fn row_count(rows: u32, n: int) -> u32 {
    if rows <= n {
        rows
    } else {
        n as u32
    }
}

/// The parts of a batch: cut once where it straddles that position, so that
/// no part does. The rows wanted are those of the last positions, so the
/// first part gives what the second has no tokens for.
pub open spec fn parts_of(s: &Shape, n: int, pos: int, rows: u32) -> Seq<Part> {
    if straddles(s, n, pos) {
        let cut = s.n_idx_topk - pos;
        let last = row_count(rows, n - cut);
        seq![
            Part {
                lo: 0,
                hi: cut as usize,
                pos: pos as u32,
                rows: row_count((rows - last) as u32, cut),
            },
            Part { lo: cut as usize, hi: n as usize, pos: s.n_idx_topk, rows: last },
        ]
    } else {
        seq![Part { lo: 0, hi: n as usize, pos: pos as u32, rows: row_count(rows, n) }]
    }
}

/// The parts of a batch.
pub fn forward_rows(s: &Shape, n: usize, pos: u32, rows: u32) -> (v: Vec<Part>)
    requires
        pos + n <= u32::MAX,
    ensures
        v@ == parts_of(s, n as int, pos as int, rows),
{
    let sequential: bool = match s.family {
        Family::Dsv4 | Family::Qwen35 | Family::K3 => true,
        Family::Gqa | Family::Mla => false,
    };
    let topk: u32 = s.n_idx_topk;
    let mut v: Vec<Part> = Vec::new();
    if !sequential && topk > 0 && pos < topk && pos as u64 + n as u64 > topk as u64 && n > 1 {
        let cut: usize = (topk - pos) as usize;
        let last: u32 = rows_given(rows, (n - cut) as u32);
        let first: u32 = rows_given(rows - last, cut as u32);
        v.push(Part { lo: 0, hi: cut, pos, rows: first });
        v.push(Part { lo: cut, hi: n, pos: topk, rows: last });
    } else {
        v.push(Part { lo: 0, hi: n, pos, rows: rows_given(rows, n as u32) });
    }
    assert(v@ =~= parts_of(s, n as int, pos as int, rows));
    v
}

/// Every token is in one part, in order, at its position, and no part
/// straddles the position where selection by score begins. A token gives
/// logits exactly when it is one of the last `rows` of the batch, and the
/// parts' rows add up to those.
pub proof fn parts_cover_the_batch(s: &Shape, n: int, pos: int, rows: u32)
    requires
        0 <= n,
        0 <= pos,
        pos + n <= u32::MAX,
        n <= usize::MAX,
    ensures
        ({
            let p = parts_of(s, n, pos, rows);
            &&& p[0].lo == 0
            &&& p.last().hi == n
            &&& rows_of(p, p.len() as int) == row_count(rows, n)
            &&& forall|i: int|
                0 <= i < p.len() ==> {
                    let q = #[trigger] p[i];
                    &&& q.lo <= q.hi
                    &&& q.pos == pos + q.lo
                    &&& !straddles(s, q.hi - q.lo, q.pos as int)
                    &&& i > 0 ==> q.lo == p[i - 1].hi
                    &&& q.rows <= q.hi - q.lo
                    &&& forall|k: int|
                        q.lo <= k < q.hi ==> (#[trigger] gives_row(q, k) <==> k >= n - rows)
                }
        }),
{
    reveal_with_fuel(rows_of, 3);
}

/// Token `k` of the batch is among the last `rows` of part `q`.
pub open spec fn gives_row(q: Part, k: int) -> bool {
    k >= q.hi - q.rows
}

/// Rows of the first `n` parts together.
pub open spec fn rows_of(p: Seq<Part>, n: int) -> nat
    decreases n,
{
    if n <= 0 {
        0
    } else {
        rows_of(p, n - 1) + p[n - 1].rows as nat
    }
}

/// Why a batch is refused.
#[derive(Clone, Copy, Debug, PartialEq, Eq, Structural)]
pub enum ForwardError {
    /// It is empty, or larger than a batch may be.
    Size { n: u32, max: u32 },
    /// It reaches behind the context.
    Context,
}

/// Check one part of a batch.
pub fn check_part(p: &Part, max_batch: u32, ctx: u32) -> (r: Option<ForwardError>)
    requires
        p.lo <= p.hi,
        p.hi - p.lo <= u32::MAX,
    ensures
        r == {
            let n = p.hi - p.lo;
            if n == 0 || n > max_batch {
                Some(ForwardError::Size { n: n as u32, max: max_batch })
            } else if p.pos + n > ctx {
                Some(ForwardError::Context)
            } else {
                None
            }
        },
{
    let n: u32 = (p.hi - p.lo) as u32;
    if n == 0 || n > max_batch {
        Some(ForwardError::Size { n, max: max_batch })
    } else if p.pos as u64 + n as u64 > ctx as u64 {
        Some(ForwardError::Context)
    } else {
        None
    }
}

impl ForwardError {
    /// What to print.
    pub open spec fn text_of(self) -> Seq<char> {
        match self {
            ForwardError::Size { n, max } => "batch "@ + text::digits(n as nat) + " outside 1..="@
                + text::digits(max as nat),
            ForwardError::Context => "position exceeds context"@,
        }
    }

    /// What to print.
    pub fn message(&self) -> (s: String)
        ensures
            s@ == self.text_of(),
    {
        match self {
            ForwardError::Size { n, max } => {
                let mut s = String::from_str("batch ");
                text::push_decimal(&mut s, *n as u64);
                s.append(" outside 1..=");
                text::push_decimal(&mut s, *max as u64);
                s
            },
            ForwardError::Context => String::from_str("position exceeds context"),
        }
    }
}

/// Rows of logits a part gives.
pub fn rows_given(rows: u32, n: u32) -> (k: u32)
    ensures
        k == row_count(rows, n as int),
{
    if rows <= n {
        rows
    } else {
        n
    }
}

/// Rows of logits wanted of a batch: the last token's or none.
pub fn forward_batch(want_logits: bool) -> (rows: u32)
    ensures
        rows == if want_logits {
            1u32
        } else {
            0
        },
{
    if want_logits {
        1
    } else {
        0
    }
}

/// The card of a layer; one behind the layers that run goes with the first.
pub fn layer_dev(devs: &Vec<i32>, il: usize) -> (d: i32)
    requires
        devs@.len() > 0,
    ensures
        d == if il < devs@.len() {
            devs@[il as int]
        } else {
            devs@[0]
        },
{
    if il < devs.len() {
        devs[il]
    } else {
        devs[0]
    }
}

} // verus!
