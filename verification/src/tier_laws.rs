//! What tiers are filled from and what is told of them: hot experts, cards,
//! bytes, and the order of keys.

use vstd::prelude::*;

use crate::bank::{ExpertBank, Facts, TierMap};
use crate::floats;
use crate::lanes;
use crate::lanes::LaneGate;
use crate::sort;
use crate::stats;
use crate::stats::TierStat;
use crate::tensors;
use crate::tiers;
use crate::tiers::{Triple, Which};

verus! {

/// The expert is hot and no slab of it is in a tier.
#[verifier::opaque]
pub open spec fn wanted(
    b: &ExpertBank,
    heat: Map<u64, (u64, u64)>,
    ts: Seq<TierMap>,
    e: int,
) -> bool {
    &&& tiers::triple_heat(heat, b.slabs(e as u32)) > 0
    &&& forall|k: int, j: int|
        0 <= k < 3 && 0 <= j < ts.len() ==> !(#[trigger] ts[j])@.contains_key(
            (#[trigger] b.slabs(e as u32)[k]).offset,
        )
}

proof fn lemma_wanted(b: &ExpertBank, heat: Map<u64, (u64, u64)>, ts: Seq<TierMap>, e: int)
    ensures
        wanted(b, heat, ts, e) <==> tiers::triple_heat(heat, b.slabs(e as u32)) > 0
            && !tiers::any_in_tier(ts, b.slabs(e as u32)),
{
    reveal(wanted);
    let s = b.slabs(e as u32);
    if !tiers::any_in_tier(ts, s) {
        assert forall|k: int, j: int| 0 <= k < 3 && 0 <= j < ts.len() implies !(
        #[trigger] ts[j])@.contains_key((#[trigger] s[k]).offset) by {
            assert(k == 0 || k == 1 || k == 2);
        }
    }
    if wanted(b, heat, ts, e) {
        assert(s[0] == s[0] && s[1] == s[1] && s[2] == s[2]);
    }
}

/// `t` is what a tier would take of the expert.
#[verifier::opaque]
pub open spec fn is_triple_of(
    b: &ExpertBank,
    heat: Map<u64, (u64, u64)>,
    ts: Seq<TierMap>,
    e: int,
    t: Triple,
) -> bool {
    &&& wanted(b, heat, ts, e)
    &&& t.reads() == b.slabs(e as u32)
    &&& t.heat == tiers::triple_heat(heat, b.slabs(e as u32)) as u64
}

/// `t` is what a tier would take of one of the experts `lo..n`.
pub open spec fn is_of_some(
    b: &ExpertBank,
    heat: Map<u64, (u64, u64)>,
    ts: Seq<TierMap>,
    lo: int,
    n: int,
    t: Triple,
) -> bool {
    exists|e: int| lo <= e < n && #[trigger] is_triple_of(b, heat, ts, e, t)
}

proof fn lemma_made(
    b: &ExpertBank,
    heat: Map<u64, (u64, u64)>,
    ts: Seq<TierMap>,
    e: int,
    t: Triple,
)
    requires
        wanted(b, heat, ts, e),
        t.heat == tiers::triple_heat(heat, b.slabs(e as u32)) as u64,
        t.gate == b.slabs(e as u32)[0],
        t.up == b.slabs(e as u32)[1],
        t.down == b.slabs(e as u32)[2],
    ensures
        is_triple_of(b, heat, ts, e, t),
{
    reveal(is_triple_of);
    assert(t.reads() =~= b.slabs(e as u32));
}

/// The triples of a layer are its hot experts that no tier holds any part
/// of, each with its three slabs and their heats' sum.
pub proof fn triples_are_the_hot_experts(
    b: &ExpertBank,
    heat: Map<u64, (u64, u64)>,
    ts: Seq<TierMap>,
    lo: int,
    n: int,
)
    requires
        0 <= lo,
    ensures
        forall|e: int|
            lo <= e < n && #[trigger] wanted(b, heat, ts, e) ==> exists|k: int|
                0 <= k < tiers::bank_triples(b, heat, ts, lo, n).len() && is_triple_of(
                    b,
                    heat,
                    ts,
                    e,
                    #[trigger] tiers::bank_triples(b, heat, ts, lo, n)[k],
                ),
        forall|k: int|
            0 <= k < tiers::bank_triples(b, heat, ts, lo, n).len() ==> is_of_some(
                b,
                heat,
                ts,
                lo,
                n,
                #[trigger] tiers::bank_triples(b, heat, ts, lo, n)[k],
            ),
    decreases n - lo,
{
    if n > lo {
        triples_are_the_hot_experts(b, heat, ts, lo, n - 1);
        lemma_wanted(b, heat, ts, n - 1);
        let a = tiers::bank_triples(b, heat, ts, lo, n - 1);
        let v = tiers::bank_triples(b, heat, ts, lo, n);
        if wanted(b, heat, ts, n - 1) {
            lemma_made(b, heat, ts, n - 1, v[a.len() as int]);
        }
        assert forall|e: int| lo <= e < n && #[trigger] wanted(b, heat, ts, e) implies exists|k: int|
            0 <= k < v.len() && is_triple_of(b, heat, ts, e, #[trigger] v[k]) by {
            if e < n - 1 {
                let k = choose|k: int|
                    0 <= k < a.len() && is_triple_of(b, heat, ts, e, #[trigger] a[k]);
                assert(v[k] == a[k]);
            }
        }
        assert forall|k: int| 0 <= k < v.len() implies is_of_some(
            b,
            heat,
            ts,
            lo,
            n,
            #[trigger] v[k],
        ) by {
            if k < a.len() {
                assert(v[k] == a[k]);
                assert(is_of_some(b, heat, ts, lo, n - 1, a[k]));
                let e = choose|e: int|
                    lo <= e < n - 1 && #[trigger] is_triple_of(b, heat, ts, e, a[k]);
                assert(is_triple_of(b, heat, ts, e, v[k]));
            } else {
                assert(is_triple_of(b, heat, ts, n - 1, v[k]));
            }
        }
    }
}

/// Routed experts come before shared ones, and a choice of either or both
/// is a stretch of ids.
pub proof fn choices_are_stretches_of_ids(b: &ExpertBank)
    ensures
        tiers::first_id(b, Which::Routed) == 0 && tiers::last_id(b, Which::Routed) == b.n_expert,
        tiers::first_id(b, Which::Shared) == b.n_expert && tiers::last_id(b, Which::Shared)
            == b.limit(),
        tiers::first_id(b, Which::Both) == 0 && tiers::last_id(b, Which::Both) == b.limit(),
{
}

/// The heat of an expert is the sum of its slabs' counts; a slab that was
/// never counted adds nothing.
pub proof fn heat_sums_over_slabs(heat: Map<u64, (u64, u64)>, t: Triple)
    ensures
        ({
            let one = |off: u64| if heat.contains_key(off) {
                heat[off].0 as int
            } else {
                0
            };
            tiers::triple_heat(heat, t.reads()) == one(t.gate.offset) + one(t.up.offset) + one(
                t.down.offset,
            )
        }),
        t.size() == t.gate.len + t.up.len + t.down.len,
{
}

/// Tiers go on every card but the primary and the one of the attention, in
/// order.
pub proof fn tiers_go_on_the_other_cards(n_dev: i32, primary: i32, attn: Option<i32>, n: int)
    requires
        0 <= n <= i32::MAX,
    ensures
        ({
            let v = tiers::tier_cards(n_dev, primary, attn, n);
            &&& forall|d: i32|
                0 <= d < n && d != primary && attn != Some(d) <==> #[trigger] v.contains(d)
            &&& forall|i: int, j: int|
                0 <= i < j < v.len() ==> #[trigger] v[i] < #[trigger] v[j]
        }),
    decreases n,
{
    if n > 0 {
        tiers_go_on_the_other_cards(n_dev, primary, attn, n - 1);
        let a = tiers::tier_cards(n_dev, primary, attn, n - 1);
        let v = tiers::tier_cards(n_dev, primary, attn, n);
        let last = (n - 1) as i32;
        assert forall|d: i32|
            0 <= d < n && d != primary && attn != Some(d) <==> #[trigger] v.contains(d) by {
            if a.contains(d) {
                let k = choose|k: int| 0 <= k < a.len() && a[k] == d;
                assert(v[k] == d);
            }
            if v.contains(d) {
                let k = choose|k: int| 0 <= k < v.len() && v[k] == d;
                if k < a.len() {
                    assert(a[k] == d);
                }
            }
            if d == last && d != primary && attn != Some(d) {
                assert(v[a.len() as int] == d);
            }
        }
        assert forall|i: int, j: int| 0 <= i < j < v.len() implies #[trigger] v[i] < #[trigger] v[j] by {
            if j < a.len() {
                assert(a[i] < a[j]);
            } else {
                assert(a.contains(a[i]));
            }
        }
    }
}

/// Bits of numbers are ranked as the numbers are, below zero before zero and
/// the zero with a sign before the other.
pub proof fn keys_order_numbers(a: u32, b: u32)
    requires
        !floats::is_nan(a),
        !floats::is_nan(b),
    ensures
        floats::order(a) < floats::order(b) ==> floats::total_key(a) < floats::total_key(b),
        floats::total_key(a) == floats::total_key(b) ==> a == b,
        floats::total_key(0x8000_0000) < floats::total_key(0),
{
}

/// Larger bits of the same sign are larger numbers above zero and smaller
/// ones below; a number below zero is below one above it.
pub proof fn order_follows_the_sign(a: u32, b: u32)
    requires
        a < 0x8000_0000,
        b < 0x8000_0000,
    ensures
        floats::order(a) < floats::order(b) <==> a < b,
        floats::order((a + 0x8000_0000) as u32) < floats::order((b + 0x8000_0000) as u32) <==> b < a,
        a > 0 ==> floats::order((a + 0x8000_0000) as u32) < floats::order(b),
        floats::order(0x8000_0000) == floats::order(0),
        floats::is_nan(a) <==> floats::is_nan((a + 0x8000_0000) as u32),
        floats::is_nan(a) <==> a > 0x7f80_0000,
{
}

/// Keys ranked from their complement go from the largest to the smallest,
/// equal ones in place, and every place is listed once.
pub proof fn flipped_ranks_descend(keys: Seq<u64>, p: Seq<usize>)
    requires
        sort::ranks(sort::flipped(keys), 0, keys.len() as int, p),
    ensures
        p.len() == keys.len(),
        forall|i: int, j: int|
            0 <= i < j < p.len() ==> keys[#[trigger] p[i] as int] > keys[#[trigger] p[j] as int] || (
            keys[p[i] as int] == keys[p[j] as int] && p[i] < p[j]),
        forall|k: usize| k < keys.len() ==> #[trigger] p.contains(k),
{
    let f = sort::flipped(keys);
    assert forall|i: int, j: int| 0 <= i < j < p.len() implies keys[#[trigger] p[i] as int]
        > keys[#[trigger] p[j] as int] || (keys[p[i] as int] == keys[p[j] as int] && p[i] < p[j]) by {
        assert(sort::before(f, p[i] as int, p[j] as int));
        assert(f[p[i] as int] == u64::MAX - keys[p[i] as int]);
        assert(f[p[j] as int] == u64::MAX - keys[p[j] as int]);
    }
}

/// The bytes of all tiers are those of one card's tiers and of the others'.
pub proof fn tier_bytes_split_by_card(ts: Seq<TierStat>, d: i32, n: int)
    requires
        0 <= n <= ts.len(),
    ensures
        (forall|i: int| 0 <= i < n ==> (#[trigger] ts[i]).dev == d) ==> stats::tier_bytes(
            ts,
            Some(d),
            n,
        ) == stats::tier_bytes(ts, None, n),
        (forall|i: int| 0 <= i < n ==> (#[trigger] ts[i]).dev != d) ==> stats::tier_bytes(
            ts,
            Some(d),
            n,
        ) == 0,
        stats::tier_bytes(ts, Some(d), n) <= stats::tier_bytes(ts, None, n),
        n > 0 ==> stats::tier_bytes(ts, None, n) == stats::tier_bytes(ts, None, n - 1) + ts[n
            - 1].bytes,
    decreases n,
{
    if n > 0 {
        tier_bytes_split_by_card(ts, d, n - 1);
    }
}

/// The processor's lane opens for small batches of whole blocks, where a
/// pool is there, memory is not shared with the card, and gate and up, and
/// down, are in encodings that it multiplies.
pub proof fn lanes_open_for_small_batches(g: &LaneGate, b: &ExpertBank)
    ensures
        lanes::lane_open(g, b) <==> g.pool && !g.unified && g.n_tok < 9 && g.n_embd % 256 == 0
            && g.n_ff_exp % 256 == 0 && b.gate.quant == b.up.quant && tensors::cpu_supports(
            b.gate.quant,
        ) && tensors::cpu_supports(b.down.quant),
{
}

/// The lane takes experts that are routed, whole in host memory, in no tier
/// and not the draft layer's, and on no card unless it may take those too;
/// no more than its cap, and in order.
pub proof fn lanes_take_host_experts(
    d: Seq<u32>,
    facts: Seq<Facts>,
    n_expert: u32,
    steal: bool,
    cap: Option<usize>,
    n: int,
)
    requires
        0 <= n <= d.len(),
        facts.len() == d.len(),
    ensures
        ({
            let v = lanes::lane_members(d, facts, n_expert, steal, cap, n);
            &&& v.len() <= n
            &&& cap matches Some(c) ==> v.len() <= c
            &&& forall|k: int|
                0 <= k < v.len() ==> exists|i: int|
                    0 <= i < n && d[i] == #[trigger] v[k] && v[k] < n_expert && (
                    #[trigger] facts[i]).host_all && facts[i].tier is None && !facts[i].mtp && (
                    steal || !facts[i].dev_any)
            &&& cap is None ==> forall|i: int|
                0 <= i < n && d[i] < n_expert && (#[trigger] facts[i]).host_all && facts[i].tier is None
                    && !facts[i].mtp && (steal || !facts[i].dev_any) ==> v.contains(d[i])
        }),
    decreases n,
{
    if n > 0 {
        lanes_take_host_experts(d, facts, n_expert, steal, cap, n - 1);
        let a = lanes::lane_members(d, facts, n_expert, steal, cap, n - 1);
        let v = lanes::lane_members(d, facts, n_expert, steal, cap, n);
        assert forall|k: int| 0 <= k < v.len() implies exists|i: int|
            0 <= i < n && d[i] == #[trigger] v[k] && v[k] < n_expert && (
            #[trigger] facts[i]).host_all && facts[i].tier is None && !facts[i].mtp && (steal
                || !facts[i].dev_any) by {
            if k < a.len() {
                assert(v[k] == a[k]);
                let i = choose|i: int|
                    0 <= i < n - 1 && d[i] == a[k] && a[k] < n_expert && (
                    #[trigger] facts[i]).host_all && facts[i].tier is None && !facts[i].mtp && (
                    steal || !facts[i].dev_any);
                assert(facts[i].host_all);
            } else {
                assert(facts[n - 1].host_all);
            }
        }
        if cap is None {
            assert forall|i: int|
                0 <= i < n && d[i] < n_expert && (#[trigger] facts[i]).host_all && facts[i].tier is None
                    && !facts[i].mtp && (steal || !facts[i].dev_any) implies v.contains(d[i]) by {
                if i < n - 1 {
                    assert(a.contains(d[i]));
                    let k = choose|k: int| 0 <= k < a.len() && a[k] == d[i];
                    assert(v[k] == d[i]);
                } else {
                    assert(v[a.len() as int] == d[i]);
                }
            }
        }
    }
}

} // verus!
