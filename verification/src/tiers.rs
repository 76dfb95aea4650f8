//! Placing whole experts by heat: resident tiers on leftover cards, the warm
//! set of the device cache, and the warm set of the host cache.

use std::collections::{HashMap, HashSet};
use vstd::prelude::*;

use crate::bank::{ExpertBank, TierMap};
use crate::census;
use crate::census::CensusEntry;
use crate::dev_cache::{DeviceSlabCache, SLAB_SLACK};
use crate::prefetch;
use crate::sort;
use crate::store;
use crate::store::Read;

verus! {

broadcast use vstd::std_specs::hash::group_hash_axioms;

/// One expert's slabs with their summed heat.
#[derive(Clone, Copy, Debug, PartialEq, Eq, Structural)]
pub struct Triple {
    pub heat: u64,
    pub gate: Read,
    pub up: Read,
    pub down: Read,
}

impl Triple {
    /// The three slabs in order.
    pub open spec fn reads(self) -> Seq<Read> {
        seq![self.gate, self.up, self.down]
    }

    /// Bytes of the three slabs.
    pub open spec fn size(self) -> nat {
        (self.gate.len + self.up.len + self.down.len) as nat
    }
}

/// Heat of one slab.
pub open spec fn slab_heat(heat: Map<u64, (u64, u64)>, off: u64) -> nat {
    if heat.contains_key(off) {
        heat[off].0 as nat
    } else {
        0
    }
}

/// Heat of an expert: the sum over its slabs.
pub open spec fn triple_heat(heat: Map<u64, (u64, u64)>, s: Seq<Read>) -> nat {
    slab_heat(heat, s[0].offset) + slab_heat(heat, s[1].offset) + slab_heat(heat, s[2].offset)
}

/// Some slab is in a tier.
pub open spec fn any_in_tier(tiers: Seq<TierMap>, s: Seq<Read>) -> bool {
    prefetch::in_a_tier(tiers, s[0].offset) || prefetch::in_a_tier(tiers, s[1].offset)
        || prefetch::in_a_tier(tiers, s[2].offset)
}

/// Which experts of a layer to rank.
#[derive(Clone, Copy, Debug, PartialEq, Eq, Structural)]
pub enum Which {
    Routed,
    Shared,
    Both,
}

/// First id to rank.
pub open spec fn first_id(b: &ExpertBank, w: Which) -> u32 {
    if w == Which::Shared {
        b.n_expert
    } else {
        0
    }
}

/// Past the last id to rank.
pub open spec fn last_id(b: &ExpertBank, w: Which) -> u32 {
    if w == Which::Routed {
        b.n_expert
    } else {
        b.limit()
    }
}

/// The experts `lo..n` of one layer that have heat and no slab in a tier.
pub open spec fn bank_triples(
    b: &ExpertBank,
    heat: Map<u64, (u64, u64)>,
    tiers: Seq<TierMap>,
    lo: int,
    n: int,
) -> Seq<Triple>
    decreases n - lo,
{
    if n <= lo {
        Seq::empty()
    } else {
        let head = bank_triples(b, heat, tiers, lo, n - 1);
        let s = b.slabs((n - 1) as u32);
        let h = triple_heat(heat, s);
        if h > 0 && !any_in_tier(tiers, s) {
            head.push(Triple { heat: h as u64, gate: s[0], up: s[1], down: s[2] })
        } else {
            head
        }
    }
}

/// The experts of the first `n` layers that have heat and no slab in a tier.
pub open spec fn model_triples(
    banks: Seq<Option<ExpertBank>>,
    heat: Map<u64, (u64, u64)>,
    tiers: Seq<TierMap>,
    w: Which,
    n: int,
) -> Seq<Triple>
    decreases n,
{
    if n <= 0 {
        Seq::empty()
    } else {
        let head = model_triples(banks, heat, tiers, w, n - 1);
        match banks[n - 1] {
            Some(b) => head + bank_triples(
                &b,
                heat,
                tiers,
                first_id(&b, w) as int,
                last_id(&b, w) as int,
            ),
            None => head,
        }
    }
}

/// The layers' banks hang together and no expert's heat overflows.
pub open spec fn banks_fit(banks: Seq<Option<ExpertBank>>, heat: Map<u64, (u64, u64)>) -> bool {
    forall|i: int|
        0 <= i < banks.len() && (#[trigger] banks[i]) is Some ==> {
            &&& banks[i]->0.wf()
            &&& forall|e: u32|
                e < banks[i]->0.limit() ==> #[trigger] triple_heat(heat, banks[i]->0.slabs(e))
                    <= u64::MAX
        }
}

fn heat_at(heat: &HashMap<u64, (u64, u64)>, off: u64) -> (h: u64)
    ensures
        h == slab_heat(heat@, off),
{
    match heat.get(&off) {
        Some(x) => x.0,
        None => 0,
    }
}

/// True when no expert's heat overflows.
pub fn heats_fit(banks: &Vec<Option<ExpertBank>>, heat: &HashMap<u64, (u64, u64)>) -> (r: bool)
    requires
        forall|i: int|
            0 <= i < banks@.len() && (#[trigger] banks@[i]) is Some ==> banks@[i]->0.wf(),
    ensures
        r == banks_fit(banks@, heat@),
{
    let mut i: usize = 0;
    while i < banks.len()
        invariant
            i <= banks@.len(),
            forall|k: int|
                0 <= k < banks@.len() && (#[trigger] banks@[k]) is Some ==> banks@[k]->0.wf(),
            forall|k: int|
                0 <= k < i && (#[trigger] banks@[k]) is Some ==> forall|e: u32|
                    e < banks@[k]->0.limit() ==> #[trigger] triple_heat(
                        heat@,
                        banks@[k]->0.slabs(e),
                    ) <= u64::MAX,
        decreases banks@.len() - i,
    {
        assert(banks@[i as int] is Some ==> banks@[i as int]->0.wf());
        match &banks[i] {
            None => {},
            Some(b) => {
                let limit: u32 = b.n_expert + b.n_sink;
                let mut e: u32 = 0;
                while e < limit
                    invariant
                        e <= limit,
                        i < banks@.len(),
                        banks@[i as int] == Some(*b),
                        b.wf(),
                        limit == b.limit(),
                        forall|x: u32|
                            x < e ==> #[trigger] triple_heat(heat@, b.slabs(x)) <= u64::MAX,
                    decreases limit - e,
                {
                    let s = b.slabs_of(e);
                    let h: u128 = heat_at(heat, s[0].offset) as u128 + heat_at(
                        heat,
                        s[1].offset,
                    ) as u128 + heat_at(heat, s[2].offset) as u128;
                    if h > u64::MAX as u128 {
                        assert(triple_heat(heat@, banks@[i as int]->0.slabs(e)) > u64::MAX);
                        return false;
                    }
                    e = e + 1;
                }
            },
        }
        i = i + 1;
    }
    true
}

/// The experts of a model that have heat and no slab in a tier, in layer
/// order.
pub fn collect_triples(
    banks: &Vec<Option<ExpertBank>>,
    heat: &HashMap<u64, (u64, u64)>,
    tiers: &Vec<TierMap>,
    w: Which,
) -> (r: Vec<Triple>)
    requires
        banks_fit(banks@, heat@),
    ensures
        r@ == model_triples(banks@, heat@, tiers@, w, banks@.len() as int),
{
    let mut out: Vec<Triple> = Vec::new();
    let mut i: usize = 0;
    while i < banks.len()
        invariant
            i <= banks@.len(),
            banks_fit(banks@, heat@),
            out@ == model_triples(banks@, heat@, tiers@, w, i as int),
        decreases banks@.len() - i,
    {
        let ghost head = out@;
        assert(banks@[i as int] is Some ==> banks@[i as int]->0.wf());
        match &banks[i] {
            None => {},
            Some(b) => {
                let lo: u32 = if w == Which::Shared { b.n_expert } else { 0 };
                let hi: u32 = if w == Which::Routed { b.n_expert } else { b.n_expert + b.n_sink };
                let mut e: u32 = lo;
                assert(head + Seq::<Triple>::empty() =~= head);
                while e < hi
                    invariant
                        lo <= e <= hi,
                        b.wf(),
                        hi <= b.limit(),
                        forall|x: u32|
                            x < b.limit() ==> #[trigger] triple_heat(heat@, b.slabs(x)) <= u64::MAX,
                        out@ == head + bank_triples(b, heat@, tiers@, lo as int, e as int),
                    decreases hi - e,
                {
                    let s = b.slabs_of(e);
                    assert(triple_heat(heat@, b.slabs(e)) <= u64::MAX);
                    assert(((e + 1) - 1) as u32 == e);
                    let in_tier: bool = prefetch::tier_has(tiers, s[0].offset)
                        || prefetch::tier_has(tiers, s[1].offset) || prefetch::tier_has(
                        tiers,
                        s[2].offset,
                    );
                    let h: u64 = heat_at(heat, s[0].offset) + heat_at(heat, s[1].offset) + heat_at(
                        heat,
                        s[2].offset,
                    );
                    if h > 0 && !in_tier {
                        out.push(Triple { heat: h, gate: s[0], up: s[1], down: s[2] });
                        assert(out@ =~= head + bank_triples(
                            b,
                            heat@,
                            tiers@,
                            lo as int,
                            e + 1,
                        ));
                    }
                    e = e + 1;
                }
                if lo >= hi {
                    assert(bank_triples(b, heat@, tiers@, lo as int, hi as int) =~= Seq::empty());
                }
            },
        }
        i = i + 1;
    }
    out
}

/// The heats of a list of triples.
pub open spec fn heats(ts: Seq<Triple>) -> Seq<u64> {
    Seq::new(ts.len(), |i: int| ts[i].heat)
}

/// `out` is `ts` from the hottest to the coldest; equal heats keep their
/// order.
pub open spec fn hottest_order(out: Seq<Triple>, ts: Seq<Triple>) -> bool {
    exists|p: Seq<usize>| #[trigger]
        sort::ranks(sort::flipped(heats(ts)), 0, ts.len() as int, p) && out == Seq::new(
            p.len(),
            |i: int| ts[p[i] as int],
        )
}

/// Order triples from the hottest to the coldest.
pub fn rank_triples(ts: &Vec<Triple>) -> (out: Vec<Triple>)
    ensures
        hottest_order(out@, ts@),
{
    let mut keys: Vec<u64> = Vec::new();
    let mut i: usize = 0;
    while i < ts.len()
        invariant
            i <= ts@.len(),
            keys@ =~= heats(ts@).take(i as int),
        decreases ts@.len() - i,
    {
        keys.push(ts[i].heat);
        i = i + 1;
    }
    assert(keys@ =~= heats(ts@));
    let p = sort::rank_desc(&keys);
    let mut out: Vec<Triple> = Vec::new();
    let mut j: usize = 0;
    while j < p.len()
        invariant
            j <= p@.len(),
            sort::ranks(sort::flipped(heats(ts@)), 0, ts@.len() as int, p@),
            out@ =~= Seq::new(p@.len(), |k: int| ts@[p@[k] as int]).take(j as int),
        decreases p@.len() - j,
    {
        out.push(ts[p[j]]);
        j = j + 1;
    }
    assert(out@ =~= Seq::new(p@.len(), |k: int| ts@[p@[k] as int]));
    out
}

/// The experts for the resident tiers, best first: routed ones by heat, then
/// shared ones by heat. Shared experts never miss, so they only fill what
/// routed ones leave.
pub fn tier_order(banks: &Vec<Option<ExpertBank>>, heat: &HashMap<u64, (u64, u64)>) -> (r: Vec<
    Triple,
>)
    requires
        banks_fit(banks@, heat@),
    ensures
        exists|a: Seq<Triple>, b: Seq<Triple>|
            {
                &&& #[trigger] hottest_order(
                    a,
                    model_triples(
                        banks@,
                        heat@,
                        Seq::empty(),
                        Which::Routed,
                        banks@.len() as int,
                    ),
                )
                &&& #[trigger] hottest_order(
                    b,
                    model_triples(
                        banks@,
                        heat@,
                        Seq::empty(),
                        Which::Shared,
                        banks@.len() as int,
                    ),
                )
                &&& r@ == a + b
            },
{
    let none: Vec<TierMap> = Vec::new();
    let routed = collect_triples(banks, heat, &none, Which::Routed);
    let shared = collect_triples(banks, heat, &none, Which::Shared);
    assert(none@ =~= Seq::<TierMap>::empty());
    let mut a = rank_triples(&routed);
    let mut b = rank_triples(&shared);
    let ghost ga = a@;
    let ghost gb = b@;
    a.append(&mut b);
    assert(hottest_order(
        ga,
        model_triples(banks@, heat@, Seq::empty(), Which::Routed, banks@.len() as int),
    ));
    assert(hottest_order(
        gb,
        model_triples(banks@, heat@, Seq::empty(), Which::Shared, banks@.len() as int),
    ));
    a
}

/// Cards to try for a tier, in order: neither the primary nor the attention
/// card.
pub open spec fn tier_cards(n_dev: i32, primary: i32, attn: Option<i32>, n: int) -> Seq<i32>
    decreases n,
{
    if n <= 0 {
        Seq::empty()
    } else {
        let head = tier_cards(n_dev, primary, attn, n - 1);
        let d = (n - 1) as i32;
        if d != primary && attn != Some(d) {
            head.push(d)
        } else {
            head
        }
    }
}

/// Cards to try for a tier, in order.
pub fn tier_candidates(n_dev: i32, primary: i32, attn: Option<i32>) -> (r: Vec<i32>)
    ensures
        r@ == tier_cards(n_dev, primary, attn, n_dev as int),
        forall|i: int|
            0 <= i < r@.len() ==> 0 <= (#[trigger] r@[i]) < n_dev && r@[i] != primary && attn != Some(
                r@[i],
            ),
{
    let mut out: Vec<i32> = Vec::new();
    let mut d: i32 = 0;
    if n_dev < 0 {
        return out;
    }
    while d < n_dev
        invariant
            0 <= d <= n_dev,
            out@ == tier_cards(n_dev, primary, attn, d as int),
            forall|i: int|
                0 <= i < out@.len() ==> 0 <= (#[trigger] out@[i]) < d && out@[i] != primary && attn
                    != Some(out@[i]),
        decreases n_dev - d,
    {
        let is_attn: bool = match attn {
            Some(a) => a == d,
            None => false,
        };
        if d != primary && !is_attn {
            out.push(d);
        }
        d = d + 1;
    }
    out
}

/// Bytes kept free on a tier card for scratch and context.
pub const TIER_RESERVE: usize = 0x4000_0000;

/// Pool size of a tier on a card with `free` bytes; `None` when too little
/// would be left to be worth it.
pub fn tier_pool(free: usize) -> (r: Option<usize>)
    ensures
        r == if free > 2 * TIER_RESERVE { Some((free - TIER_RESERVE) as usize) } else { None },
{
    if free > TIER_RESERVE && free - TIER_RESERVE > TIER_RESERVE {
        Some(free - TIER_RESERVE)
    } else {
        None
    }
}

/// Bytes of the triples `from..to`.
pub open spec fn span_bytes(ts: Seq<Triple>, from: int, to: int) -> nat
    decreases to - from,
{
    if to <= from {
        0
    } else {
        span_bytes(ts, from, to - 1) + ts[to - 1].size()
    }
}

/// `end` is where a pool of `pool` bytes filled from `from` on is full: all
/// triples before it fit with the slack behind them, the one at it does not.
pub open spec fn is_fill_end(ts: Seq<Triple>, from: int, end: int, pool: int) -> bool {
    &&& from <= end <= ts.len()
    &&& forall|m: int|
        from < m <= end ==> (#[trigger] span_bytes(ts, from, m)) + SLAB_SLACK <= pool
    &&& end < ts.len() ==> span_bytes(ts, from, end + 1) + SLAB_SLACK > pool
}

/// Fill a tier pool from the triples at `from` on. Returns where it is full;
/// the next tier goes on there.
pub fn fill_tier(ts: &Vec<Triple>, from: usize, pool: usize) -> (end: usize)
    requires
        from <= ts@.len(),
    ensures
        is_fill_end(ts@, from as int, end as int, pool as int),
{
    let mut used: u128 = 0;
    let mut i: usize = from;
    while i < ts.len()
        invariant
            from <= i <= ts@.len(),
            used == span_bytes(ts@, from as int, i as int),
            i > from ==> used + SLAB_SLACK <= pool,
            i == from ==> used == 0,
            forall|m: int|
                from < m <= i ==> (#[trigger] span_bytes(ts@, from as int, m)) + SLAB_SLACK <= pool,
        decreases ts@.len() - i,
    {
        let t: Triple = ts[i];
        let need: u128 = t.gate.len as u128 + t.up.len as u128 + t.down.len as u128;
        assert(span_bytes(ts@, from as int, i + 1) == used + need);
        if used + need + SLAB_SLACK as u128 > pool as u128 {
            return i;
        }
        used = used + need;
        i = i + 1;
    }
    i
}

/// Where tier `k` starts.
pub open spec fn tier_start(ends: Seq<usize>, k: int) -> int {
    if k <= 0 {
        0
    } else {
        ends[k - 1] as int
    }
}

/// The pools filled one after another, the best triples first.
pub open spec fn is_spread(ts: Seq<Triple>, pools: Seq<usize>, ends: Seq<usize>) -> bool {
    &&& ends.len() == pools.len()
    &&& forall|k: int|
        0 <= k < ends.len() ==> is_fill_end(
            ts,
            tier_start(ends, k),
            (#[trigger] ends[k]) as int,
            pools[k] as int,
        )
}

/// Where each tier is full: every tier goes on where the one before it ended.
pub fn fill_tiers(ts: &Vec<Triple>, pools: &Vec<usize>) -> (ends: Vec<usize>)
    ensures
        is_spread(ts@, pools@, ends@),
{
    let mut ends: Vec<usize> = Vec::new();
    let mut next: usize = 0;
    let mut k: usize = 0;
    while k < pools.len()
        invariant
            k <= pools@.len(),
            next <= ts@.len(),
            next == tier_start(ends@, k as int),
            is_spread(ts@, pools@.take(k as int), ends@),
        decreases pools@.len() - k,
    {
        let end: usize = fill_tier(ts, next, pools[k]);
        let ghost was = ends@;
        ends.push(end);
        next = end;
        proof {
            assert forall|j: int| 0 <= j < ends@.len() implies is_fill_end(
                ts@,
                tier_start(ends@, j),
                (#[trigger] ends@[j]) as int,
                pools@.take(k + 1)[j] as int,
            ) by {
                if j < k {
                    assert(ends@[j] == was[j]);
                    assert(tier_start(ends@, j) == tier_start(was, j));
                }
            }
        }
        k = k + 1;
    }
    assert(pools@.take(k as int) =~= pools@);
    ends
}

/// Some tier holds triple `i`.
pub open spec fn tier_holds(ends: Seq<usize>, i: int) -> bool {
    exists|k: int| 0 <= k < ends.len() && tier_start(ends, k) <= i < #[trigger] ends[k]
}

proof fn lemma_ends_rise(ts: Seq<Triple>, pools: Seq<usize>, ends: Seq<usize>, j: int, k: int)
    requires
        is_spread(ts, pools, ends),
        0 <= j <= k < ends.len(),
    ensures
        ends[j] <= ends[k],
    decreases k - j,
{
    if j < k {
        lemma_ends_rise(ts, pools, ends, j, k - 1);
        assert(is_fill_end(ts, tier_start(ends, k), ends[k] as int, pools[k] as int));
    }
}

proof fn lemma_held_upto(ts: Seq<Triple>, pools: Seq<usize>, ends: Seq<usize>, i: int, k: int)
    requires
        is_spread(ts, pools, ends),
        0 <= k < ends.len(),
        0 <= i < ends[k],
    ensures
        tier_holds(ends, i),
    decreases k,
{
    if k > 0 && i < ends[k - 1] {
        lemma_held_upto(ts, pools, ends, i, k - 1);
    } else {
        assert(tier_start(ends, k) <= i < ends[k]);
    }
}

/// The tiers hold the hottest experts: whatever the slabs' sizes, no routed
/// expert that every tier leaves out is hotter than one that some tier holds.
/// `a` are the routed experts by heat, `b` what ranks below them.
pub proof fn tiers_hold_the_hottest(
    all: Seq<Triple>,
    a: Seq<Triple>,
    b: Seq<Triple>,
    pools: Seq<usize>,
    ends: Seq<usize>,
    held: int,
    out: int,
)
    requires
        hottest_order(a, all),
        is_spread(a + b, pools, ends),
        0 <= held < a.len() + b.len(),
        0 <= out < a.len(),
        tier_holds(ends, held),
        !tier_holds(ends, out),
    ensures
        held < out,
        (a + b)[held].heat >= a[out].heat,
{
    let ts = a + b;
    let k = choose|k: int| 0 <= k < ends.len() && tier_start(ends, k) <= held < #[trigger] ends[k];
    if out < ends[k] {
        lemma_held_upto(ts, pools, ends, out, k);
    }
    let p = choose|p: Seq<usize>| #[trigger]
        sort::ranks(sort::flipped(heats(all)), 0, all.len() as int, p) && a == Seq::new(
            p.len(),
            |i: int| all[p[i] as int],
        );
    assert(sort::before(sort::flipped(heats(all)), p[held] as int, p[out] as int));
}

/// Every expert before the last tier's end is held by one tier, and by no
/// other.
pub proof fn tiers_do_not_overlap(
    ts: Seq<Triple>,
    pools: Seq<usize>,
    ends: Seq<usize>,
    i: int,
    j: int,
    k: int,
)
    requires
        is_spread(ts, pools, ends),
        0 <= j < ends.len(),
        0 <= k < ends.len(),
        tier_start(ends, j) <= i < ends[j],
        tier_start(ends, k) <= i < ends[k],
    ensures
        j == k,
{
    if j < k {
        lemma_ends_rise(ts, pools, ends, j, k - 1);
    } else if k < j {
        lemma_ends_rise(ts, pools, ends, k, j - 1);
    }
}

/// Where the slabs of the triples `from..to` lie: back to back in order.
pub open spec fn placed(ts: Seq<Triple>, from: int, to: int) -> Map<u64, usize>
    decreases to - from,
{
    if to <= from {
        Map::empty()
    } else {
        let t = ts[to - 1];
        let at = span_bytes(ts, from, to - 1);
        placed(ts, from, to - 1).insert(t.gate.offset, at as usize).insert(
            t.up.offset,
            (at + t.gate.len) as usize,
        ).insert(t.down.offset, (at + t.gate.len + t.up.len) as usize)
    }
}

/// Where the slabs of a filled tier lie in its pool.
pub fn place_tier(ts: &Vec<Triple>, from: usize, to: usize) -> (m: TierMap)
    requires
        from <= to <= ts@.len(),
        span_bytes(ts@, from as int, to as int) <= usize::MAX,
    ensures
        m@ == placed(ts@, from as int, to as int),
{
    let mut m: TierMap = HashMap::new();
    let mut at: usize = 0;
    let mut i: usize = from;
    while i < to
        invariant
            from <= i <= to <= ts@.len(),
            span_bytes(ts@, from as int, to as int) <= usize::MAX,
            at == span_bytes(ts@, from as int, i as int),
            m@ == placed(ts@, from as int, i as int),
        decreases to - i,
    {
        let t: Triple = ts[i];
        proof {
            lemma_span_grows(ts@, from as int, i + 1, to as int);
            assert(span_bytes(ts@, from as int, i + 1) == at + t.size());
        }
        let up_at: usize = at + t.gate.len as usize;
        let down_at: usize = up_at + t.up.len as usize;
        m.insert(t.gate.offset, at);
        m.insert(t.up.offset, up_at);
        m.insert(t.down.offset, down_at);
        at = down_at + t.down.len as usize;
        i = i + 1;
    }
    m
}

proof fn lemma_span_grows(ts: Seq<Triple>, from: int, a: int, b: int)
    requires
        from <= a <= b,
    ensures
        span_bytes(ts, from, a) <= span_bytes(ts, from, b),
    decreases b - a,
{
    if a < b {
        lemma_span_grows(ts, from, a, b - 1);
    }
}

/// Every slab of a filled tier lies inside its pool, with the slack behind
/// it.
pub proof fn tier_slabs_stay_inside(ts: Seq<Triple>, from: int, end: int, pool: int, i: int)
    requires
        0 <= from,
        is_fill_end(ts, from, end, pool),
        from <= i < end,
    ensures
        span_bytes(ts, from, i) + ts[i].size() + SLAB_SLACK <= pool,
{
    lemma_span_grows(ts, from, i + 1, end);
    assert(span_bytes(ts, from, i + 1) == span_bytes(ts, from, i) + ts[i].size());
    assert(span_bytes(ts, from, i + 1) + SLAB_SLACK <= pool);
}

/// What to load before the first token.
pub struct WarmPlan {
    /// Whole experts for the device cache, three reads each.
    pub dev_reads: Vec<Read>,
    /// Slabs for the host cache.
    pub host_reads: Vec<Read>,
}

/// The reads of the triples `from..to`.
pub open spec fn triple_reads(ts: Seq<Triple>, from: int, to: int) -> Seq<Read>
    decreases to - from,
{
    if to <= from {
        Seq::empty()
    } else {
        triple_reads(ts, from, to - 1) + ts[to - 1].reads()
    }
}

/// `end` is where the host budget runs out, filling from `from` on.
pub open spec fn is_host_end(ts: Seq<Triple>, from: int, end: int, budget: int) -> bool {
    &&& from <= end <= ts.len()
    &&& span_bytes(ts, from, end) <= budget
    &&& end < ts.len() ==> span_bytes(ts, from, end + 1) > budget
}

/// Bytes of the first `n` census entries.
pub open spec fn entry_bytes(es: Seq<CensusEntry>, n: int) -> nat
    decreases n,
{
    if n <= 0 {
        0
    } else {
        entry_bytes(es, n - 1) + es[n - 1].len as nat
    }
}

/// Census entries as reads.
pub open spec fn entry_reads(es: Seq<CensusEntry>, n: int) -> Seq<Read>
    decreases n,
{
    if n <= 0 {
        Seq::empty()
    } else {
        entry_reads(es, n - 1).push(Read { offset: es[n - 1].offset, len: es[n - 1].len })
    }
}

/// The part of a heat map that neither a tier nor the reads cover.
pub open spec fn uncovered(
    heat: Map<u64, (u64, u64)>,
    tiers: Seq<TierMap>,
    reads: Seq<Read>,
) -> Map<u64, (u64, u64)> {
    Map::new(
        |k: u64|
            heat.contains_key(k) && !prefetch::in_a_tier(tiers, k) && !store::offsets(
                reads,
            ).contains(k),
        |k: u64| heat[k],
    )
}

/// Number of experts that go to the device cache.
pub open spec fn warm_count(slots: nat, n: nat) -> int {
    if slots / 3 < n {
        (slots / 3) as int
    } else {
        n as int
    }
}

/// The host side of a warm plan: experts up to `end`, then the first `k` of
/// the uncovered slabs `es`, as far as the budget goes.
pub open spec fn is_warm_host(
    plan: &WarmPlan,
    ts: Seq<Triple>,
    heat: Map<u64, (u64, u64)>,
    tiers: Seq<TierMap>,
    n_dev: int,
    budget: nat,
    end: int,
    es: Seq<CensusEntry>,
    k: int,
) -> bool {
    &&& is_host_end(ts, n_dev, end, budget as int)
    &&& census::hottest_first(
        es,
        uncovered(heat, tiers, plan.dev_reads@ + triple_reads(ts, n_dev, end)),
    )
    &&& 0 <= k <= es.len()
    &&& plan.host_reads@ == triple_reads(ts, n_dev, end) + entry_reads(es, k)
    &&& span_bytes(ts, n_dev, end) + entry_bytes(es, k) <= budget
    &&& k < es.len() ==> span_bytes(ts, n_dev, end) + entry_bytes(es, k + 1) > budget
}

/// A warm plan: the hottest experts fill the device cache whole, the next
/// ones the host cache until the budget runs out, and what is left of the
/// budget goes to the hottest single slabs that no expert covered.
pub open spec fn is_warm_plan(
    plan: &WarmPlan,
    ts: Seq<Triple>,
    heat: Map<u64, (u64, u64)>,
    tiers: Seq<TierMap>,
    slots: nat,
    budget: nat,
) -> bool {
    let n_dev = warm_count(slots, ts.len());
    &&& plan.dev_reads@ == triple_reads(ts, 0, n_dev)
    &&& exists|end: int, es: Seq<CensusEntry>, k: int| #[trigger]
        is_warm_host(plan, ts, heat, tiers, n_dev, budget, end, es, k)
}

fn push_reads(out: &mut Vec<Read>, t: Triple)
    ensures
        final(out)@ == old(out)@ + t.reads(),
{
    let ghost was = out@;
    out.push(t.gate);
    out.push(t.up);
    out.push(t.down);
    assert(out@ =~= was + t.reads());
}

fn offsets_set(a: &Vec<Read>, b: &Vec<Read>) -> (s: HashSet<u64>)
    ensures
        forall|k: u64| #[trigger] s@.contains(k) <==> store::offsets(a@ + b@).contains(k),
{
    let mut s: HashSet<u64> = HashSet::new();
    let n: usize = a.len();
    let mut i: usize = 0;
    while i < n
        invariant
            i <= n,
            n == a@.len(),
            forall|k: u64| #[trigger]
                s@.contains(k) <==> exists|j: int| 0 <= j < i && (#[trigger] a@[j]).offset == k,
        decreases n - i,
    {
        let ghost was = s@;
        s.insert(a[i].offset);
        proof {
            assert forall|k: u64| #[trigger] s@.contains(k) <==> exists|j: int|
                0 <= j < i + 1 && (#[trigger] a@[j]).offset == k by {
                if s@.contains(k) {
                    if was.contains(k) {
                        let j = choose|j: int| 0 <= j < i && (#[trigger] a@[j]).offset == k;
                        assert(a@[j].offset == k);
                    } else {
                        assert(a@[i as int].offset == k);
                    }
                }
            }
        }
        i = i + 1;
    }
    let m: usize = b.len();
    let mut j: usize = 0;
    while j < m
        invariant
            j <= m,
            m == b@.len(),
            forall|k: u64| #[trigger]
                s@.contains(k) <==> (exists|x: int|
                    0 <= x < a@.len() && (#[trigger] a@[x]).offset == k) || (exists|x: int|
                    0 <= x < j && (#[trigger] b@[x]).offset == k),
        decreases m - j,
    {
        let ghost was = s@;
        s.insert(b[j].offset);
        proof {
            assert forall|k: u64| #[trigger] s@.contains(k) <==> (exists|x: int|
                0 <= x < a@.len() && (#[trigger] a@[x]).offset == k) || (exists|x: int|
                0 <= x < j + 1 && (#[trigger] b@[x]).offset == k) by {
                if s@.contains(k) && !was.contains(k) {
                    assert(b@[j as int].offset == k);
                }
                if was.contains(k) {
                    if exists|x: int| 0 <= x < j && (#[trigger] b@[x]).offset == k {
                        let x = choose|x: int| 0 <= x < j && (#[trigger] b@[x]).offset == k;
                        assert(b@[x].offset == k);
                    }
                }
            }
        }
        j = j + 1;
    }
    proof {
        let c = a@ + b@;
        assert forall|k: u64| #[trigger] s@.contains(k) <==> store::offsets(c).contains(k) by {
            if s@.contains(k) {
                if exists|x: int| 0 <= x < a@.len() && (#[trigger] a@[x]).offset == k {
                    let x = choose|x: int| 0 <= x < a@.len() && (#[trigger] a@[x]).offset == k;
                    assert(store::offsets(c)[x] == k);
                } else {
                    let x = choose|x: int| 0 <= x < b@.len() && (#[trigger] b@[x]).offset == k;
                    assert(store::offsets(c)[a@.len() + x] == k);
                }
            }
            if store::offsets(c).contains(k) {
                let y = choose|y: int| 0 <= y < c.len() && store::offsets(c)[y] == k;
                if y < a@.len() {
                    assert(a@[y].offset == k);
                } else {
                    assert(b@[y - a@.len()].offset == k);
                }
            }
        }
    }
    s
}

fn uncovered_entries(
    heat: &HashMap<u64, (u64, u64)>,
    tiers: &Vec<TierMap>,
    a: &Vec<Read>,
    b: &Vec<Read>,
) -> (es: Vec<CensusEntry>)
    ensures
        census::hottest_first(es@, uncovered(heat@, tiers@, a@ + b@)),
{
    let covered = offsets_set(a, b);
    let all = census::entries_of(heat);
    let ghost u = uncovered(heat@, tiers@, a@ + b@);
    let mut out: Vec<CensusEntry> = Vec::new();
    let mut i: usize = 0;
    while i < all.len()
        invariant
            i <= all@.len(),
            census::lists(all@, heat@),
            u == uncovered(heat@, tiers@, a@ + b@),
            forall|k: u64| #[trigger]
                covered@.contains(k) <==> store::offsets(a@ + b@).contains(k),
            forall|x: int|
                0 <= x < out@.len() ==> u.contains_key((#[trigger] out@[x]).offset)
                    && u[out@[x].offset] == (out@[x].count, out@[x].len) && exists|j: int|
                    0 <= j < i && #[trigger] all@[j] == out@[x],
            forall|x: int, y: int|
                0 <= x < y < out@.len() ==> (#[trigger] out@[x]).offset != (#[trigger] out@[y]).offset,
            forall|j: int|
                0 <= j < i && u.contains_key((#[trigger] all@[j]).offset) ==> census::names(
                    out@,
                    all@[j].offset,
                ),
        decreases all@.len() - i,
    {
        let e: CensusEntry = all[i];
        let ghost was = out@;
        assert(heat@.contains_key(all@[i as int].offset));
        if !covered.contains(&e.offset) && !prefetch::tier_has(tiers, e.offset) {
            proof {
                assert forall|x: int| 0 <= x < out@.len() implies (#[trigger] out@[x]).offset
                    != e.offset by {
                    let j = choose|j: int| 0 <= j < i && #[trigger] all@[j] == out@[x];
                    assert(all@[j].offset != all@[i as int].offset);
                }
            }
            out.push(e);
        }
        proof {
            assert forall|x: int| 0 <= x < out@.len() implies exists|j: int|
                0 <= j < i + 1 && #[trigger] all@[j] == #[trigger] out@[x] by {
                if x < was.len() {
                    let j = choose|j: int| 0 <= j < i && #[trigger] all@[j] == was[x];
                    assert(all@[j] == out@[x]);
                } else {
                    assert(all@[i as int] == out@[x]);
                }
            }
            assert forall|j: int|
                0 <= j < i + 1 && u.contains_key((#[trigger] all@[j]).offset) implies census::names(
                out@,
                all@[j].offset,
            ) by {
                if j < i {
                    assert(census::names(was, all@[j].offset));
                    let x = choose|x: int|
                        0 <= x < was.len() && (#[trigger] was[x]).offset == all@[j].offset;
                    assert(out@[x].offset == all@[j].offset);
                } else {
                    assert(out@[was.len() as int].offset == all@[j].offset);
                }
            }
        }
        i = i + 1;
    }
    proof {
        assert forall|k: u64| #[trigger] u.contains_key(k) implies census::names(out@, k) by {
            assert(heat@.contains_key(k));
            assert(census::names(all@, k));
            let j = choose|j: int| 0 <= j < all@.len() && (#[trigger] all@[j]).offset == k;
            assert(u.contains_key(all@[j].offset));
        }
        assert(census::lists(out@, u));
    }
    census::sort_hottest(&out)
}

/// Plan the warm load: `ts` are the experts from the hottest on.
pub fn plan_warm(
    ts: &Vec<Triple>,
    heat: &HashMap<u64, (u64, u64)>,
    tiers: &Vec<TierMap>,
    slots: usize,
    budget: u64,
) -> (plan: WarmPlan)
    ensures
        is_warm_plan(&plan, ts@, heat@, tiers@, slots as nat, budget as nat),
{
    let n_dev: usize = if slots / 3 < ts.len() { slots / 3 } else { ts.len() };
    let mut dev_reads: Vec<Read> = Vec::new();
    let mut i: usize = 0;
    while i < n_dev
        invariant
            i <= n_dev <= ts@.len(),
            dev_reads@ == triple_reads(ts@, 0, i as int),
        decreases n_dev - i,
    {
        push_reads(&mut dev_reads, ts[i]);
        i = i + 1;
    }
    let mut host_reads: Vec<Read> = Vec::new();
    let mut used: u128 = 0;
    let mut end: usize = n_dev;
    let mut full: bool = false;
    while end < ts.len() && !full
        invariant
            n_dev <= end <= ts@.len(),
            used == span_bytes(ts@, n_dev as int, end as int),
            used <= budget,
            full ==> end < ts@.len() && span_bytes(ts@, n_dev as int, end + 1) > budget,
            host_reads@ == triple_reads(ts@, n_dev as int, end as int),
        decreases ts@.len() - end + (if full { 0int } else { 1 }),
    {
        let t: Triple = ts[end];
        let need: u128 = t.gate.len as u128 + t.up.len as u128 + t.down.len as u128;
        assert(span_bytes(ts@, n_dev as int, end + 1) == used + need);
        if used + need > budget as u128 {
            full = true;
        } else {
            used = used + need;
            push_reads(&mut host_reads, t);
            end = end + 1;
        }
    }
    let ghost from_triples = host_reads@;
    let ghost base = used;
    let es = uncovered_entries(heat, tiers, &dev_reads, &host_reads);
    let mut k: usize = 0;
    let mut over: bool = false;
    assert(from_triples + Seq::<Read>::empty() =~= from_triples);
    while k < es.len() && !over
        invariant
            k <= es@.len(),
            base == span_bytes(ts@, n_dev as int, end as int),
            used == base + entry_bytes(es@, k as int),
            used <= budget,
            over ==> k < es@.len() && base + entry_bytes(es@, k + 1) > budget,
            host_reads@ == from_triples + entry_reads(es@, k as int),
        decreases es@.len() - k + (if over { 0int } else { 1 }),
    {
        let e: CensusEntry = es[k];
        assert(entry_bytes(es@, k + 1) == entry_bytes(es@, k as int) + e.len);
        if used + e.len as u128 > budget as u128 {
            over = true;
        } else {
            used = used + e.len as u128;
            host_reads.push(Read { offset: e.offset, len: e.len });
            assert(host_reads@ =~= from_triples + entry_reads(es@, k + 1));
            k = k + 1;
        }
    }
    let plan = WarmPlan { dev_reads, host_reads };
    proof {
        assert(is_warm_host(
            &plan,
            ts@,
            heat@,
            tiers@,
            warm_count(slots as nat, ts@.len()),
            budget as nat,
            end as int,
            es@,
            k as int,
        ));
    }
    plan
}

/// The heat of everything outside the tiers.
pub open spec fn outside(heat: Map<u64, (u64, u64)>, tiers: Seq<TierMap>) -> Map<u64, (u64, u64)> {
    Map::new(
        |k: u64| heat.contains_key(k) && !prefetch::in_a_tier(tiers, k),
        |k: u64| heat[k],
    )
}

/// Seed the touch counts from a heat map, and remember what was seeded.
pub fn seed_touch(
    dev: &mut DeviceSlabCache,
    seeds: &mut HashMap<u64, u64>,
    heat: &HashMap<u64, (u64, u64)>,
    tiers: &Vec<TierMap>,
)
    requires
        old(dev).wf(),
    ensures
        final(dev).wf(),
        final(dev).state() == old(dev).state(),
        final(dev).touch@ == old(dev).touch@.union_prefer_right(outside(heat@, tiers@)),
        final(seeds)@ == old(seeds)@.union_prefer_right(
            outside(heat@, tiers@).map_values(|v: (u64, u64)| v.0),
        ),
        final(dev).slab_bytes == old(dev).slab_bytes,
        final(dev).pool_len == old(dev).pool_len,
        final(dev).next_group == old(dev).next_group,
        final(dev).hits == old(dev).hits,
        final(dev).misses == old(dev).misses,
{
    let all = census::entries_of(heat);
    let ghost o = outside(heat@, tiers@);
    let ghost t0 = dev.touch@;
    let ghost s0 = seeds@;
    let mut i: usize = 0;
    while i < all.len()
        invariant
            i <= all@.len(),
            census::lists(all@, heat@),
            o == outside(heat@, tiers@),
            dev.wf(),
            dev.state() == old(dev).state(),
            dev.slab_bytes == old(dev).slab_bytes,
            dev.pool_len == old(dev).pool_len,
            dev.next_group == old(dev).next_group,
            dev.hits == old(dev).hits,
            dev.misses == old(dev).misses,
            forall|k: u64| #[trigger]
                dev.touch@.contains_key(k) <==> t0.contains_key(k) || (o.contains_key(k)
                    && census::names(all@.take(i as int), k)),
            forall|k: u64| #[trigger]
                dev.touch@.contains_key(k) ==> dev.touch@[k] == if o.contains_key(k)
                    && census::names(all@.take(i as int), k) {
                    o[k]
                } else {
                    t0[k]
                },
            forall|k: u64| #[trigger]
                seeds@.contains_key(k) <==> s0.contains_key(k) || (o.contains_key(k)
                    && census::names(all@.take(i as int), k)),
            forall|k: u64| #[trigger]
                seeds@.contains_key(k) ==> seeds@[k] == if o.contains_key(k) && census::names(
                    all@.take(i as int),
                    k,
                ) {
                    o[k].0
                } else {
                    s0[k]
                },
        decreases all@.len() - i,
    {
        let e: CensusEntry = all[i];
        assert(heat@.contains_key(all@[i as int].offset));
        let in_tier: bool = prefetch::tier_has(tiers, e.offset);
        proof {
            let a = all@.take(i as int);
            let b = all@.take(i + 1);
            assert forall|k: u64| census::names(b, k) <==> census::names(a, k) || k == e.offset by {
                if census::names(b, k) {
                    let x = choose|x: int| 0 <= x < b.len() && (#[trigger] b[x]).offset == k;
                    if x < i {
                        assert(a[x].offset == k);
                    }
                }
                if census::names(a, k) {
                    let x = choose|x: int| 0 <= x < a.len() && (#[trigger] a[x]).offset == k;
                    assert(b[x].offset == k);
                }
                if k == e.offset {
                    assert(b[i as int].offset == k);
                }
            }
        }
        if !in_tier {
            dev.touch.insert(e.offset, (e.count, e.len));
            seeds.insert(e.offset, e.count);
        }
        i = i + 1;
    }
    proof {
        assert(all@.take(i as int) =~= all@);
        assert(dev.touch@ =~= t0.union_prefer_right(o));
        assert(seeds@ =~= s0.union_prefer_right(o.map_values(|v: (u64, u64)| v.0)));
    }
}

} // verus!
