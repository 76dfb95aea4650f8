//! Stable ranking of items by an integer key.

use vstd::prelude::*;

verus! {

/// Index `i` comes before `j`: smaller key, then the earlier index.
pub open spec fn before(keys: Seq<u64>, i: int, j: int) -> bool {
    keys[i] < keys[j] || (keys[i] == keys[j] && i < j)
}

/// `p` lists every index of `lo..hi` once, ordered by key.
pub open spec fn ranks(keys: Seq<u64>, lo: int, hi: int, p: Seq<usize>) -> bool {
    &&& p.len() == hi - lo
    &&& forall|i: int| 0 <= i < p.len() ==> lo <= (#[trigger] p[i]) < hi
    &&& forall|i: int, j: int|
        0 <= i < j < p.len() ==> before(keys, #[trigger] p[i] as int, #[trigger] p[j] as int)
    &&& forall|k: usize| lo <= k < hi ==> #[trigger] p.contains(k)
}

/// The indices of `keys` from the smallest key to the largest; equal keys
/// keep their order.
pub fn rank_asc(keys: &Vec<u64>) -> (p: Vec<usize>)
    ensures
        ranks(keys@, 0, keys@.len() as int, p@),
{
    rank_range(keys, 0, keys.len())
}

/// `u64::MAX - k` for each key, which turns the order around.
pub open spec fn flipped(keys: Seq<u64>) -> Seq<u64> {
    Seq::new(keys.len(), |i: int| (u64::MAX - keys[i]) as u64)
}

/// The indices of `keys` from the largest key to the smallest; equal keys
/// keep their order.
pub fn rank_desc(keys: &Vec<u64>) -> (p: Vec<usize>)
    ensures
        ranks(flipped(keys@), 0, keys@.len() as int, p@),
        forall|i: int, j: int|
            0 <= i < j < p@.len() ==> keys@[#[trigger] p@[i] as int] >= keys@[#[trigger] p@[j] as int],
{
    let mut f: Vec<u64> = Vec::new();
    let mut i: usize = 0;
    while i < keys.len()
        invariant
            i <= keys@.len(),
            f@ =~= flipped(keys@).take(i as int),
        decreases keys@.len() - i,
    {
        f.push(u64::MAX - keys[i]);
        i = i + 1;
    }
    assert(f@ =~= flipped(keys@));
    let p = rank_asc(&f);
    assert forall|i: int, j: int| 0 <= i < j < p@.len() implies keys@[#[trigger] p@[i] as int]
        >= keys@[#[trigger] p@[j] as int] by {
        assert(before(f@, p@[i] as int, p@[j] as int));
    }
    p
}

fn rank_range(keys: &Vec<u64>, lo: usize, hi: usize) -> (p: Vec<usize>)
    requires
        lo <= hi <= keys@.len(),
    ensures
        ranks(keys@, lo as int, hi as int, p@),
    decreases hi - lo,
{
    let mut out: Vec<usize> = Vec::new();
    if hi - lo == 0 {
        return out;
    }
    if hi - lo == 1 {
        out.push(lo);
        assert(out@[0] == lo);
        return out;
    }
    let mid: usize = lo + (hi - lo) / 2;
    let a = rank_range(keys, lo, mid);
    let b = rank_range(keys, mid, hi);
    let mut i: usize = 0;
    let mut j: usize = 0;
    while i < a.len() || j < b.len()
        invariant
            lo <= mid <= hi <= keys@.len(),
            ranks(keys@, lo as int, mid as int, a@),
            ranks(keys@, mid as int, hi as int, b@),
            i <= a@.len(),
            j <= b@.len(),
            out@.len() == i + j,
            forall|x: int| 0 <= x < out@.len() ==> lo <= (#[trigger] out@[x]) < hi,
            forall|x: int, y: int|
                0 <= x < y < out@.len() ==> before(
                    keys@,
                    #[trigger] out@[x] as int,
                    #[trigger] out@[y] as int,
                ),
            forall|x: int, y: int|
                0 <= x < out@.len() && i <= y < a@.len() ==> before(
                    keys@,
                    #[trigger] out@[x] as int,
                    #[trigger] a@[y] as int,
                ),
            forall|x: int, y: int|
                0 <= x < out@.len() && j <= y < b@.len() ==> before(
                    keys@,
                    #[trigger] out@[x] as int,
                    #[trigger] b@[y] as int,
                ),
            forall|x: int| 0 <= x < i ==> out@.contains(#[trigger] a@[x]),
            forall|y: int| 0 <= y < j ==> out@.contains(#[trigger] b@[y]),
        decreases a@.len() + b@.len() - i - j,
    {
        let ghost was = out@;
        let from_a: bool = if i < a.len() && j < b.len() {
            keys[a[i]] <= keys[b[j]]
        } else {
            i < a.len()
        };
        if from_a {
            out.push(a[i]);
            i = i + 1;
        } else {
            out.push(b[j]);
            j = j + 1;
        }
        proof {
            assert forall|v: usize| was.contains(v) implies out@.contains(v) by {
                let k = choose|k: int| 0 <= k < was.len() && was[k] == v;
                assert(out@[k] == v);
            }
            assert(out@[was.len() as int] == out@.last());
            assert(out@.contains(out@.last()));
        }
    }
    proof {
        assert forall|k: usize| lo <= k < hi implies #[trigger] out@.contains(k) by {
            if k < mid {
                assert(a@.contains(k));
            } else {
                assert(b@.contains(k));
            }
        }
    }
    out
}

} // verus!
