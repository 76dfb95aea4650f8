//! A model file in several shards, seen as one.

use vstd::prelude::*;

verus! {

/// Bytes of a header read at first.
pub const HEAD_READ_START: usize = 0x200_0000;

/// What to do after a header was parsed from its first `n` bytes.
#[derive(Clone, Copy, Debug, PartialEq, Eq, Structural)]
pub enum HeadRead {
    Done,
    /// Read this many bytes and parse again.
    Again(usize),
    /// Give up: there is no more to read.
    Fail,
}

/// What to do after a header was parsed from `got` bytes of a read of `n`:
/// a header that was cut short is read again, twice as far, as long as the
/// file went on.
pub fn next_head_read(n: usize, got: usize, parsed: bool, cut_short: bool) -> (r: HeadRead)
    requires
        n <= usize::MAX / 2,
    ensures
        r == if parsed {
            HeadRead::Done
        } else if cut_short && got == n {
            HeadRead::Again((2 * n) as usize)
        } else {
            HeadRead::Fail
        },
{
    if parsed {
        HeadRead::Done
    } else if cut_short && got == n {
        HeadRead::Again(2 * n)
    } else {
        HeadRead::Fail
    }
}

/// Bytes of the first `n` shards.
pub open spec fn span_upto(lens: Seq<u64>, n: int) -> int
    decreases n,
{
    if n <= 0 {
        0
    } else {
        span_upto(lens, n - 1) + lens[n - 1]
    }
}

/// Where each shard starts.
pub open spec fn bases_of(lens: Seq<u64>) -> Seq<u64> {
    Seq::new(lens.len(), |i: int| span_upto(lens, i) as u64)
}

proof fn lemma_span_grows(lens: Seq<u64>, a: int, b: int)
    requires
        0 <= a <= b <= lens.len(),
    ensures
        0 <= span_upto(lens, a) <= span_upto(lens, b),
    decreases b,
{
    if a < b {
        lemma_span_grows(lens, a, b - 1);
    } else if a > 0 {
        lemma_span_grows(lens, a - 1, a - 1);
    }
}

/// Where each shard starts: behind the ones before it.
pub fn shard_bases(lens: &Vec<u64>) -> (b: Vec<u64>)
    requires
        span_upto(lens@, lens@.len() as int) <= u64::MAX,
    ensures
        b@ == bases_of(lens@),
{
    let mut b: Vec<u64> = Vec::new();
    let mut base: u64 = 0;
    let mut i: usize = 0;
    while i < lens.len()
        invariant
            i <= lens@.len(),
            base == span_upto(lens@, i as int),
            span_upto(lens@, lens@.len() as int) <= u64::MAX,
            b@ =~= bases_of(lens@).take(i as int),
        decreases lens@.len() - i,
    {
        b.push(base);
        proof {
            lemma_span_grows(lens@, i + 1, lens@.len() as int);
        }
        base = base + lens[i];
        i = i + 1;
    }
    assert(b@ =~= bases_of(lens@));
    b
}

/// Bases never fall.
pub open spec fn ordered(bases: Seq<u64>) -> bool {
    forall|i: int, j: int| 0 <= i <= j < bases.len() ==> bases[i] <= bases[j]
}

/// The shard that holds `offset`: the last one that starts at or before it.
pub open spec fn is_shard_of(bases: Seq<u64>, offset: u64, i: int) -> bool {
    &&& 0 <= i < bases.len()
    &&& bases[i] <= offset
    &&& forall|k: int| i < k < bases.len() ==> offset < #[trigger] bases[k]
}

/// The shard that holds `offset`, and the offset inside it.
pub fn locate(bases: &Vec<u64>, offset: u64) -> (r: (usize, u64))
    requires
        ordered(bases@),
        bases@.len() > 0,
        bases@[0] <= offset,
    ensures
        is_shard_of(bases@, offset, r.0 as int),
        r.1 == offset - bases@[r.0 as int],
{
    let mut lo: usize = 0;
    let mut hi: usize = bases.len();
    while hi - lo > 1
        invariant
            lo < hi <= bases@.len(),
            ordered(bases@),
            bases@[lo as int] <= offset,
            forall|k: int| hi <= k < bases@.len() ==> offset < #[trigger] bases@[k],
        decreases hi - lo,
    {
        let mid: usize = lo + (hi - lo) / 2;
        if bases[mid] <= offset {
            lo = mid;
        } else {
            hi = mid;
        }
    }
    (lo, offset - bases[lo])
}

/// Every offset of the whole is found in a shard that reaches it.
pub proof fn every_offset_is_found(lens: Seq<u64>, offset: u64, i: int)
    requires
        span_upto(lens, lens.len() as int) <= u64::MAX,
        offset < span_upto(lens, lens.len() as int),
        is_shard_of(bases_of(lens), offset, i),
    ensures
        span_upto(lens, i) <= offset < span_upto(lens, i) + lens[i],
{
    lemma_span_grows(lens, i, lens.len() as int);
    lemma_span_grows(lens, i + 1, lens.len() as int);
    if i + 1 < lens.len() {
        assert(offset < bases_of(lens)[i + 1]);
    }
}

/// Shard bases never fall.
pub proof fn bases_are_ordered(lens: Seq<u64>)
    requires
        span_upto(lens, lens.len() as int) <= u64::MAX,
    ensures
        ordered(bases_of(lens)),
{
    assert forall|i: int, j: int| 0 <= i <= j < lens.len() implies bases_of(lens)[i] <= bases_of(
        lens,
    )[j] by {
        lemma_span_grows(lens, i, j);
        lemma_span_grows(lens, j, lens.len() as int);
    }
}

} // verus!
