//! Fetching ahead: which slabs of the next layer to read while this one
//! computes, and how well the guesses do.

use std::collections::HashMap;
use vstd::prelude::*;

use crate::bank::{ExpertBank, TierMap};
use crate::dev_cache::DeviceSlabCache;
use crate::sort;
use crate::store;
use crate::store::{CacheEntry, Read, StreamingStore};

verus! {

broadcast use vstd::std_specs::hash::group_hash_axioms;

/// Requests are joined up to this many reads; what is queued beyond that is
/// dropped.
pub const COALESCE_MAX: usize = 192;

/// The first request whole, then queued ones until there is enough.
pub open spec fn gathered(first: Seq<Read>, queued: Seq<Vec<Read>>, n: int) -> Seq<Read>
    decreases n,
{
    if n <= 0 {
        first
    } else {
        let head = gathered(first, queued, n - 1);
        if head.len() >= COALESCE_MAX {
            head
        } else {
            head + queued[n - 1]@
        }
    }
}

/// `out` holds one read per offset of `all`, by ascending offset.
pub open spec fn is_batch_of(out: Seq<Read>, all: Seq<Read>) -> bool {
    &&& forall|i: int, j: int|
        0 <= i < j < out.len() ==> (#[trigger] out[i]).offset < (#[trigger] out[j]).offset
    &&& forall|i: int| 0 <= i < out.len() ==> all.contains(#[trigger] out[i])
    &&& forall|i: int|
        0 <= i < all.len() ==> store::offsets(out).contains((#[trigger] all[i]).offset)
}

fn gather(first: &Vec<Read>, queued: &Vec<Vec<Read>>) -> (r: Vec<Read>)
    ensures
        r@ == gathered(first@, queued@, queued@.len() as int),
{
    let mut out: Vec<Read> = Vec::new();
    let mut i: usize = 0;
    while i < first.len()
        invariant
            i <= first@.len(),
            out@ =~= first@.take(i as int),
        decreases first@.len() - i,
    {
        out.push(first[i]);
        i = i + 1;
    }
    assert(out@ =~= first@);
    let mut q: usize = 0;
    while q < queued.len()
        invariant
            q <= queued@.len(),
            out@ == gathered(first@, queued@, q as int),
        decreases queued@.len() - q,
    {
        if out.len() < COALESCE_MAX {
            let ghost head = out@;
            let mut j: usize = 0;
            while j < queued[q].len()
                invariant
                    q < queued@.len(),
                    j <= queued@[q as int]@.len(),
                    out@ =~= head + queued@[q as int]@.take(j as int),
                decreases queued@[q as int]@.len() - j,
            {
                out.push(queued[q][j]);
                j = j + 1;
            }
            assert(out@ =~= head + queued@[q as int]@);
        }
        q = q + 1;
    }
    out
}

/// One batch for the drive out of the requests at hand: ascending offsets,
/// each once.
pub fn coalesce(first: &Vec<Read>, queued: &Vec<Vec<Read>>) -> (out: Vec<Read>)
    ensures
        is_batch_of(out@, gathered(first@, queued@, queued@.len() as int)),
{
    let all = gather(first, queued);
    let mut keys: Vec<u64> = Vec::new();
    let mut i: usize = 0;
    while i < all.len()
        invariant
            i <= all@.len(),
            keys@.len() == i,
            forall|k: int| 0 <= k < i ==> #[trigger] keys@[k] == all@[k].offset,
        decreases all@.len() - i,
    {
        keys.push(all[i].offset);
        i = i + 1;
    }
    let p = sort::rank_asc(&keys);
    let mut out: Vec<Read> = Vec::new();
    let mut j: usize = 0;
    while j < p.len()
        invariant
            j <= p@.len(),
            sort::ranks(keys@, 0, keys@.len() as int, p@),
            keys@.len() == all@.len(),
            forall|k: int| 0 <= k < keys@.len() ==> #[trigger] keys@[k] == all@[k].offset,
            forall|x: int, y: int|
                0 <= x < y < out@.len() ==> (#[trigger] out@[x]).offset < (#[trigger] out@[y]).offset,
            forall|x: int| 0 <= x < out@.len() ==> all@.contains(#[trigger] out@[x]),
            j > 0 ==> out@.len() > 0 && out@.last().offset == keys@[p@[j - 1] as int],
            j == 0 ==> out@.len() == 0,
            forall|x: int|
                0 <= x < j ==> store::offsets(out@).contains(keys@[#[trigger] p@[x] as int]),
        decreases p@.len() - j,
    {
        let r: Read = all[p[j]];
        let fresh: bool = out.len() == 0 || out[out.len() - 1].offset != r.offset;
        let ghost was = out@;
        proof {
            if j > 0 {
                assert(sort::before(keys@, p@[j - 1] as int, p@[j as int] as int));
            }
            assert(keys@[p@[j as int] as int] == all@[p@[j as int] as int].offset);
        }
        if fresh {
            out.push(r);
        }
        proof {
            assert forall|o: u64| store::offsets(was).contains(o) implies store::offsets(
                out@,
            ).contains(o) by {
                let k = choose|k: int| 0 <= k < was.len() && store::offsets(was)[k] == o;
                assert(store::offsets(out@)[k] == o);
            }
            let z = out@.len() - 1;
            assert(out@[z].offset == r.offset);
            assert(store::offsets(out@)[z] == r.offset);
        }
        j = j + 1;
    }
    proof {
        assert forall|i: int| 0 <= i < all@.len() implies store::offsets(out@).contains(
            (#[trigger] all@[i]).offset,
        ) by {
            assert(p@.contains(i as usize));
            let x = choose|x: int| 0 <= x < p@.len() && p@[x] == i as usize;
            assert(store::offsets(out@).contains(keys@[p@[x] as int]));
        }
    }
    out
}

/// A slab is at hand: in host memory, in the device cache or in a tier.
pub open spec fn at_hand<S>(
    off: u64,
    host: Map<u64, CacheEntry<S>>,
    dev: Map<u64, u32>,
    tiers: Seq<TierMap>,
) -> bool {
    host.contains_key(off) || dev.contains_key(off) || in_a_tier(tiers, off)
}

/// Some tier holds the slab.
pub open spec fn in_a_tier(tiers: Seq<TierMap>, off: u64) -> bool {
    exists|i: int| 0 <= i < tiers.len() && (#[trigger] tiers[i])@.contains_key(off)
}

/// True when some tier holds the slab.
pub fn tier_has(tiers: &Vec<TierMap>, off: u64) -> (r: bool)
    ensures
        r == in_a_tier(tiers@, off),
{
    let mut i: usize = 0;
    while i < tiers.len()
        invariant
            i <= tiers@.len(),
            forall|k: int| 0 <= k < i ==> !(#[trigger] tiers@[k])@.contains_key(off),
        decreases tiers@.len() - i,
    {
        if tiers[i].contains_key(&off) {
            assert(tiers@[i as int]@.contains_key(off));
            return true;
        }
        i = i + 1;
    }
    false
}

/// The predicted ids among the first `n` that name routed experts.
pub open spec fn valid_ids(pred: Seq<i32>, n_expert: u32, n: int) -> Seq<u32>
    decreases n,
{
    if n <= 0 {
        Seq::empty()
    } else if 0 <= pred[n - 1] && pred[n - 1] < n_expert {
        valid_ids(pred, n_expert, n - 1).push(pred[n - 1] as u32)
    } else {
        valid_ids(pred, n_expert, n - 1)
    }
}

/// The predicted ids that name routed experts.
pub fn predicted_ids(pred: &Vec<i32>, n_expert: u32) -> (r: Vec<u32>)
    ensures
        r@ == valid_ids(pred@, n_expert, pred@.len() as int),
        forall|i: int| 0 <= i < r@.len() ==> (#[trigger] r@[i]) < n_expert,
{
    let mut out: Vec<u32> = Vec::new();
    let mut i: usize = 0;
    while i < pred.len()
        invariant
            i <= pred@.len(),
            out@ == valid_ids(pred@, n_expert, i as int),
            forall|k: int| 0 <= k < out@.len() ==> (#[trigger] out@[k]) < n_expert,
        decreases pred@.len() - i,
    {
        let e: i32 = pred[i];
        if e >= 0 && (e as u32) < n_expert {
            out.push(e as u32);
        }
        i = i + 1;
    }
    out
}

/// Every routed id of a layer.
pub fn all_ids(n_expert: u32) -> (r: Vec<u32>)
    ensures
        r@ == Seq::new(n_expert as nat, |i: int| i as u32),
{
    let mut out: Vec<u32> = Vec::new();
    let mut i: u32 = 0;
    while i < n_expert
        invariant
            i <= n_expert,
            out@ =~= Seq::new(i as nat, |k: int| k as u32),
        decreases n_expert - i,
    {
        out.push(i);
        i = i + 1;
    }
    out
}

/// Of `slabs`, those not at hand, behind `acc`.
pub open spec fn with_missing<S>(
    acc: Seq<Read>,
    slabs: Seq<Read>,
    host: Map<u64, CacheEntry<S>>,
    dev: Map<u64, u32>,
    tiers: Seq<TierMap>,
) -> Seq<Read>
    decreases slabs.len(),
{
    if slabs.len() == 0 {
        acc
    } else {
        let head = with_missing(acc, slabs.drop_last(), host, dev, tiers);
        if at_hand(slabs.last().offset, host, dev, tiers) {
            head
        } else {
            head.push(slabs.last())
        }
    }
}

/// Reads for the slabs of the first `n` ids that are not at hand.
pub open spec fn missing_reads<S>(
    bank: &ExpertBank,
    ids: Seq<u32>,
    host: Map<u64, CacheEntry<S>>,
    dev: Map<u64, u32>,
    tiers: Seq<TierMap>,
    n: int,
) -> Seq<Read>
    decreases n,
{
    if n <= 0 {
        Seq::empty()
    } else {
        with_missing(
            missing_reads(bank, ids, host, dev, tiers, n - 1),
            bank.slabs(ids[n - 1]),
            host,
            dev,
            tiers,
        )
    }
}

/// What to fetch of the next layer: the slabs of `ids` that are not at hand.
pub fn fetch_ahead<S>(
    bank: &ExpertBank,
    ids: &Vec<u32>,
    st: &StreamingStore<S>,
    dev: &DeviceSlabCache,
    tiers: &Vec<TierMap>,
) -> (r: Vec<Read>)
    requires
        bank.wf(),
        forall|i: int| 0 <= i < ids@.len() ==> (#[trigger] ids@[i]) < bank.n_expert,
    ensures
        r@ == missing_reads(bank, ids@, st.cache@, dev.map@, tiers@, ids@.len() as int),
{
    let mut out: Vec<Read> = Vec::new();
    let mut i: usize = 0;
    while i < ids.len()
        invariant
            i <= ids@.len(),
            bank.wf(),
            forall|k: int| 0 <= k < ids@.len() ==> (#[trigger] ids@[k]) < bank.n_expert,
            out@ == missing_reads(bank, ids@, st.cache@, dev.map@, tiers@, i as int),
        decreases ids@.len() - i,
    {
        let s = bank.slabs_of(ids[i]);
        let ghost acc = out@;
        let mut k: usize = 0;
        assert(s@.take(0) =~= Seq::<Read>::empty());
        while k < 3
            invariant
                k <= 3,
                out@ == with_missing(acc, s@.take(k as int), st.cache@, dev.map@, tiers@),
            decreases 3 - k,
        {
            let r: Read = s[k];
            proof {
                assert(s@.take(k + 1).drop_last() =~= s@.take(k as int));
                assert(s@.take(k + 1).last() == s@[k as int]);
            }
            let here: bool = st.contains(r.offset) || dev.map.contains_key(&r.offset) || tier_has(
                tiers,
                r.offset,
            );
            if !here {
                out.push(r);
            }
            k = k + 1;
        }
        assert(s@.take(3) =~= bank.slabs(ids@[i as int]));
        i = i + 1;
    }
    out
}

/// A slab worth copying to the device ahead of its layer: only host memory
/// holds it, and it is not on the list yet.
pub open spec fn copy_worthy<S>(
    acc: Seq<Read>,
    off: u64,
    host: Map<u64, CacheEntry<S>>,
    dev: Map<u64, u32>,
    tiers: Seq<TierMap>,
    mtp: Map<u64, usize>,
) -> bool {
    !in_a_tier(tiers, off) && !dev.contains_key(off) && !mtp.contains_key(off) && !store::offsets(
        acc,
    ).contains(off) && host.contains_key(off)
}

pub open spec fn with_copies<S>(
    acc: Seq<Read>,
    slabs: Seq<Read>,
    host: Map<u64, CacheEntry<S>>,
    dev: Map<u64, u32>,
    tiers: Seq<TierMap>,
    mtp: Map<u64, usize>,
) -> Seq<Read>
    decreases slabs.len(),
{
    if slabs.len() == 0 {
        acc
    } else {
        let head = with_copies(acc, slabs.drop_last(), host, dev, tiers, mtp);
        if copy_worthy(head, slabs.last().offset, host, dev, tiers, mtp) {
            head.push(slabs.last())
        } else {
            head
        }
    }
}

/// Slabs of the first `n` ids worth copying ahead.
pub open spec fn copies_for<S>(
    bank: &ExpertBank,
    ids: Seq<u32>,
    host: Map<u64, CacheEntry<S>>,
    dev: Map<u64, u32>,
    tiers: Seq<TierMap>,
    mtp: Map<u64, usize>,
    n: int,
) -> Seq<Read>
    decreases n,
{
    if n <= 0 {
        Seq::empty()
    } else {
        with_copies(
            copies_for(bank, ids, host, dev, tiers, mtp, n - 1),
            bank.slabs(ids[n - 1]),
            host,
            dev,
            tiers,
            mtp,
        )
    }
}

/// What to copy to the device ahead of the next layer.
pub fn copy_ahead<S>(
    bank: &ExpertBank,
    ids: &Vec<u32>,
    st: &StreamingStore<S>,
    dev: &DeviceSlabCache,
    tiers: &Vec<TierMap>,
    mtp: &HashMap<u64, usize>,
) -> (r: Vec<Read>)
    requires
        bank.wf(),
        forall|i: int| 0 <= i < ids@.len() ==> (#[trigger] ids@[i]) < bank.n_expert,
    ensures
        r@ == copies_for(bank, ids@, st.cache@, dev.map@, tiers@, mtp@, ids@.len() as int),
{
    let mut out: Vec<Read> = Vec::new();
    let mut i: usize = 0;
    while i < ids.len()
        invariant
            i <= ids@.len(),
            bank.wf(),
            forall|k: int| 0 <= k < ids@.len() ==> (#[trigger] ids@[k]) < bank.n_expert,
            out@ == copies_for(bank, ids@, st.cache@, dev.map@, tiers@, mtp@, i as int),
        decreases ids@.len() - i,
    {
        let s = bank.slabs_of(ids[i]);
        let ghost acc = out@;
        let mut k: usize = 0;
        assert(s@.take(0) =~= Seq::<Read>::empty());
        while k < 3
            invariant
                k <= 3,
                out@ == with_copies(acc, s@.take(k as int), st.cache@, dev.map@, tiers@, mtp@),
            decreases 3 - k,
        {
            let r: Read = s[k];
            proof {
                assert(s@.take(k + 1).drop_last() =~= s@.take(k as int));
                assert(s@.take(k + 1).last() == s@[k as int]);
            }
            let worthy: bool = !tier_has(tiers, r.offset) && !dev.map.contains_key(&r.offset)
                && !mtp.contains_key(&r.offset) && !store::wants(&out, r.offset) && st.contains(
                r.offset,
            );
            if worthy {
                out.push(r);
            }
            k = k + 1;
        }
        assert(s@.take(3) =~= bank.slabs(ids@[i as int]));
        i = i + 1;
    }
    out
}

/// Routed selections among the first `n`: how many, and how many of them the
/// previous layer's prediction named.
pub open spec fn score_of(selected: Seq<i32>, pred: Seq<i32>, n_expert: u32, n: int) -> (nat, nat)
    decreases n,
{
    if n <= 0 {
        (0, 0)
    } else {
        let (hits, total) = score_of(selected, pred, n_expert, n - 1);
        if 0 <= selected[n - 1] && selected[n - 1] < n_expert {
            (hits + if pred.contains(selected[n - 1]) { 1nat } else { 0nat }, total + 1)
        } else {
            (hits, total)
        }
    }
}

/// Score a prediction against what was selected: hits and total.
pub fn score(selected: &Vec<i32>, pred: &Vec<i32>, n_expert: u32) -> (r: (u64, u64))
    requires
        selected@.len() <= u64::MAX,
    ensures
        (r.0 as nat, r.1 as nat) == score_of(selected@, pred@, n_expert, selected@.len() as int),
        r.0 <= r.1 <= selected@.len(),
{
    let mut hits: u64 = 0;
    let mut total: u64 = 0;
    let mut i: usize = 0;
    while i < selected.len()
        invariant
            i <= selected@.len(),
            (hits as nat, total as nat) == score_of(selected@, pred@, n_expert, i as int),
            hits <= total <= i,
            selected@.len() <= u64::MAX,
        decreases selected@.len() - i,
    {
        let e: i32 = selected[i];
        if e >= 0 && (e as u32) < n_expert {
            total = total + 1;
            if has_id(pred, e) {
                hits = hits + 1;
            }
        }
        i = i + 1;
    }
    (hits, total)
}

fn has_id(v: &Vec<i32>, x: i32) -> (r: bool)
    ensures
        r == v@.contains(x),
{
    let mut i: usize = 0;
    while i < v.len()
        invariant
            i <= v@.len(),
            forall|k: int| 0 <= k < i ==> v@[k] != x,
        decreases v@.len() - i,
    {
        if v[i] == x {
            assert(v@.contains(x));
            return true;
        }
        i = i + 1;
    }
    false
}

/// How often the first `n` slots select expert `e`.
pub open spec fn picks(selected: Seq<i32>, e: int, n: int) -> nat
    decreases n,
{
    if n <= 0 {
        0
    } else {
        picks(selected, e, n - 1) + if selected[n - 1] == e { 1nat } else { 0nat }
    }
}

/// Count every routed selection of layer `il`, wherever the expert is.
pub fn count_routes(counts: &mut Vec<u64>, il: usize, n_expert: u32, selected: &Vec<i32>)
    requires
        (il + 1) * n_expert <= old(counts)@.len(),
        forall|i: int|
            0 <= i < old(counts)@.len() ==> (#[trigger] old(counts)@[i]) + selected@.len()
                <= u64::MAX,
    ensures
        final(counts)@.len() == old(counts)@.len(),
        forall|i: int|
            0 <= i < old(counts)@.len() ==> #[trigger] final(counts)@[i] == old(counts)@[i] + if il
                * n_expert <= i < (il + 1) * n_expert {
                picks(selected@, i - il * n_expert, selected@.len() as int)
            } else {
                0
            },
{
    let ghost was = counts@;
    proof {
        assert((il + 1) * n_expert == il * n_expert + n_expert) by (nonlinear_arith);
        assert(0 <= il * n_expert) by (nonlinear_arith);
    }
    let len: usize = counts.len();
    let base: usize = il * n_expert as usize;
    let mut i: usize = 0;
    while i < selected.len()
        invariant
            i <= selected@.len(),
            base == il * n_expert,
            base + n_expert <= len,
            (il + 1) * n_expert == base + n_expert,
            counts@.len() == len,
            was.len() == len,
            forall|k: int|
                0 <= k < was.len() ==> (#[trigger] was[k]) + selected@.len() <= u64::MAX,
            forall|k: int|
                0 <= k < was.len() ==> #[trigger] counts@[k] == was[k] + if base <= k < base
                    + n_expert {
                    picks(selected@, k - base, i as int)
                } else {
                    0
                },
        decreases selected@.len() - i,
    {
        let e: i32 = selected[i];
        if e >= 0 && (e as u32) < n_expert {
            let at: usize = base + e as usize;
            proof {
                lemma_picks(selected@, e as int, i as int);
                assert(was[at as int] + selected@.len() <= u64::MAX);
                assert(counts@[at as int] == was[at as int] + picks(selected@, e as int, i as int));
            }
            counts.set(at, counts[at] + 1);
        }
        i = i + 1;
    }
}

proof fn lemma_picks(selected: Seq<i32>, e: int, n: int)
    requires
        0 <= n,
    ensures
        picks(selected, e, n) <= n,
    decreases n,
{
    if n > 0 {
        lemma_picks(selected, e, n - 1);
    }
}

proof fn lemma_gathered_starts(first: Seq<Read>, queued: Seq<Vec<Read>>, n: int)
    ensures
        first.len() <= gathered(first, queued, n).len(),
        gathered(first, queued, n).take(first.len() as int) == first,
    decreases n,
{
    if n > 0 {
        lemma_gathered_starts(first, queued, n - 1);
        assert(gathered(first, queued, n).take(first.len() as int) =~= gathered(
            first,
            queued,
            n - 1,
        ).take(first.len() as int));
    } else {
        assert(first.take(first.len() as int) =~= first);
    }
}

/// The request that woke the reader is never cut short, however long it is
/// and whatever is queued behind it.
pub proof fn first_request_is_whole(first: Seq<Read>, queued: Seq<Vec<Read>>, out: Seq<Read>, i: int)
    requires
        is_batch_of(out, gathered(first, queued, queued.len() as int)),
        0 <= i < first.len(),
    ensures
        store::offsets(out).contains(first[i].offset),
{
    let all = gathered(first, queued, queued.len() as int);
    lemma_gathered_starts(first, queued, queued.len() as int);
    assert(all[i] == all.take(first.len() as int)[i]);
}

} // verus!
