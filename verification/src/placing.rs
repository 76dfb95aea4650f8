//! What the placement of weights comes to: which card a setting names, how
//! full each card gets, and what attention may take.

use vstd::prelude::*;

use crate::header::Header;
use crate::layer_loads;
use crate::layer_plan;
use crate::layer_plan::{Form, Home};
use crate::placement;
use crate::placement::{Card, GpuChoice, Run};
use crate::shape::{Family, Shape};
use crate::words;

verus! {

/// A setting forces a card only in the families with offload, and only by
/// the number of a card that is there and is not the primary; any other
/// number is told to be ignored, and any other text counts as none.
pub proof fn settings_name_other_cards(
    family: Family,
    setting: Option<Seq<char>>,
    primary: i32,
    n_dev: i32,
)
    ensures
        ({
            let r = placement::gpu_choice(family, setting, primary, n_dev);
            let number = match setting {
                Some(v) => words::integer_within(
                    words::trimmed(v),
                    i32::MIN as int,
                    i32::MAX as int,
                ),
                None => None,
            };
            let heard = family != Family::Dsv4 && family != Family::Qwen35 && setting is Some
                && setting != Some("off"@) && setting != Some("-1"@) && number is Some;
            let there = heard && number->0 != primary && 0 <= number->0 < n_dev;
            &&& !heard <==> r == GpuChoice::Auto
            &&& there ==> r == GpuChoice::Use(number->0 as i32)
            &&& heard && !there ==> r == GpuChoice::Ignored(number->0 as i32)
        }),
{
}

/// What a card may hold of the weights is what it has free beyond the
/// reserve.
pub proof fn cards_keep_a_reserve(c: Card)
    ensures
        placement::cap_of(c) >= 0,
        c.free >= 0x5000_0000 ==> placement::cap_of(c) + 0x5000_0000 == c.free,
        c.free < 0x5000_0000 ==> placement::cap_of(c) == 0,
{
}

/// A card takes layers as long as the next one stays within its limit.
pub proof fn cards_fill_to_their_limit(lb: Seq<u64>, il: int, used: int, limit: int)
    requires
        0 <= il <= lb.len(),
        0 <= used <= limit,
    ensures
        ({
            let end = placement::fill_to(lb, il, used, limit);
            &&& il <= end <= lb.len()
            &&& used + placement::range_sum(lb, il, end) <= limit
            &&& end < lb.len() ==> used + placement::range_sum(lb, il, end) + lb[end] > limit
        }),
    decreases lb.len() - il,
{
    if il < lb.len() && used + lb[il] <= limit {
        cards_fill_to_their_limit(lb, il + 1, used + lb[il], limit);
        lemma_head(lb, il, placement::fill_to(lb, il + 1, used + lb[il], limit));
    }
}

proof fn lemma_head(lb: Seq<u64>, a: int, b: int)
    requires
        0 <= a < b <= lb.len(),
    ensures
        placement::range_sum(lb, a, b) == lb[a] + placement::range_sum(lb, a + 1, b),
    decreases b - a,
{
    if a + 1 < b {
        lemma_head(lb, a, b - 1);
    } else {
        reveal_with_fuel(placement::range_sum, 2);
    }
}

/// The headroom is what the cards could hold beyond the weights; every card
/// but the last leaves its share of it, by what it can hold, rounded down.
pub proof fn headroom_is_shared(lb: Seq<u64>, cards: Seq<Card>, c: int)
    requires
        0 <= c < cards.len(),
        placement::total_cap(cards, cards.len() as int) > 0,
    ensures
        ({
            let total = placement::total_cap(cards, cards.len() as int);
            let weights = placement::range_sum(lb, 0, lb.len() as int);
            let spare = placement::spare_of(lb, cards);
            let cap = placement::cap_of(cards[c]);
            let left = cap - placement::limit_of(lb, cards, c);
            &&& total >= weights ==> spare + weights == total
            &&& total < weights ==> spare == 0
            &&& c == cards.len() - 1 ==> left == 0
            &&& c < cards.len() - 1 ==> left * total <= spare * cap < (left + 1) * total
        }),
{
    let total = placement::total_cap(cards, cards.len() as int);
    let spare = placement::spare_of(lb, cards);
    let cap = placement::cap_of(cards[c]);
    let x = spare * cap;
    let q = x / total;
    assert(q * total <= x < (q + 1) * total) by (nonlinear_arith)
        requires
            total > 0,
            q == x / total,
    ;
}

/// Runs of layers on one card.
pub open spec fn runs_cover(r: Seq<Run>, v: Seq<i32>, i: int, n: int) -> bool {
    &&& r.len() == 0 <==> i >= n
    &&& r.len() > 0 ==> r[0].first == i && r[r.len() - 1].last == n - 1
    &&& forall|k: int|
        0 <= k < r.len() ==> (#[trigger] r[k]).first <= r[k].last < n && forall|l: int|
            r[k].first <= l <= r[k].last ==> #[trigger] v[l] == r[k].dev
    &&& forall|k: int|
        1 <= k < r.len() ==> (#[trigger] r[k]).first == r[k - 1].last + 1 && r[k].dev != r[k
            - 1].dev
}

proof fn lemma_run_is_longest(v: Seq<i32>, i: int, n: int)
    requires
        0 <= i < n <= v.len(),
    ensures
        placement::run_end(v, i, n) + 1 < n ==> v[placement::run_end(v, i, n) + 1] != v[i],
    decreases n - i,
{
    if i + 1 < n && v[i + 1] == v[i] {
        lemma_run_is_longest(v, i + 1, n);
    }
}

/// The runs cover the layers from `i` on without a gap; each is of one card,
/// and its neighbour of another.
pub proof fn runs_are_whole(v: Seq<i32>, i: int, n: int)
    requires
        0 <= i <= n <= v.len(),
        n <= usize::MAX,
    ensures
        runs_cover(placement::runs_from(v, i, n), v, i, n),
    decreases n - i,
{
    if i < n {
        let j = placement::run_end(v, i, n);
        placement::lemma_run_end(v, i, n);
        lemma_run_is_longest(v, i, n);
        runs_are_whole(v, j + 1, n);
        let first = Run { first: i as usize, last: j as usize, dev: v[i] };
        let rest = placement::runs_from(v, j + 1, n);
        let all = seq![first] + rest;
        assert(placement::runs_from(v, i, n) == all);
        assert forall|k: int| 1 <= k < all.len() implies (#[trigger] all[k]).first == all[k - 1].last
            + 1 && all[k].dev != all[k - 1].dev by {
            assert(all[k] == rest[k - 1]);
            if k > 1 {
                assert(all[k - 1] == rest[k - 2]);
            } else {
                assert(v[rest[0].first as int] == rest[0].dev);
            }
        }
        assert forall|k: int| 0 <= k < all.len() implies (#[trigger] all[k]).first <= all[k].last < n
            && forall|l: int| all[k].first <= l <= all[k].last ==> #[trigger] v[l] == all[k].dev by {
            if k > 0 {
                assert(all[k] == rest[k - 1]);
            }
        }
        if rest.len() > 0 {
            assert(all[all.len() - 1] == rest[rest.len() - 1]);
        }
    }
}

/// What attention may take: anything in the grouped-query family; what is
/// set, in gibibytes, in the others; and without a setting anything, but for
/// two families on the primary.
pub proof fn attention_may_take(family: Family, offload: bool, gib: Option<i64>)
    ensures
        ({
            let b = placement::attn_budget(family, offload, gib);
            &&& family == Family::Gqa ==> b == i64::MAX
            &&& family != Family::Gqa && gib is Some ==> b == (gib->0 << 30u64) as i64
            &&& gib is None && family == Family::Dsv4 ==> b == 8 * 0x4000_0000
            &&& gib is None && family == Family::Mla && !offload ==> b == 5 * 0x4000_0000
            &&& gib is None && (family == Family::K3 || family == Family::Qwen35 || (family
                == Family::Mla && offload)) ==> b == i64::MAX
        }),
{
}

/// Latent attention on the primary leaves nine gibibytes of what is free to
/// the rest, where there is more than that; no other budget is cut.
pub proof fn latent_budgets_leave_room(
    family: Family,
    offload: bool,
    budget: i64,
    free: Option<u64>,
)
    requires
        free matches Some(f) ==> f <= i64::MAX,
    ensures
        ({
            let b = placement::clamped_budget(family, offload, budget, free);
            let cut = family == Family::Mla && !offload && budget < i64::MAX && free is Some
                && free->0 > 9 * 0x4000_0000 && budget + 9 * 0x4000_0000 > free->0;
            &&& cut ==> b + 9 * 0x4000_0000 == free->0
            &&& !cut ==> b == budget
        }),
{
}

/// What is on the primary however a dense model is split: the head as it is
/// stored, and the embedding in blocks of 32 with two bytes of scale.
pub proof fn head_and_embedding_stay(h: &Header)
    ensures
        ({
            let head = h.tensor_named("output.weight"@);
            let emb = h.tensor_named("token_embd.weight"@);
            let a = if head is Some && head->0.byte_size is Some {
                head->0.byte_size->0 as int
            } else {
                0
            };
            let b = if emb is Some {
                32 * (emb->0.n_elements / 32) + 2 * (emb->0.n_elements / 32)
            } else {
                0
            };
            placement::fixed_bytes(h) == a + b
        }),
{
}

/// What a latent layer weighs on its attention card is counted over the
/// parts that its attention loads there, no more and no less.
pub proof fn latent_layers_weigh_what_they_load(
    h: &Header,
    s: &Shape,
    il: nat,
    ratio: u32,
    p: Seq<char>,
)
    requires
        s.family == Family::Mla,
        s.n_idx_topk > 0,
        layer_plan::carries(h, il, "indexer.attn_q_b.weight"@),
    ensures
        placement::card_parts(false).contains(p) <==> exists|f: Form| #[trigger]
            layer_loads::loads(layer_plan::attn_steps(h, s, il, ratio), p, f, Home::Attn),
{
    let v = layer_plan::attn_steps(h, s, il, ratio);
    let w = placement::card_parts(false);
    layer_loads::latent_attention_loads(h, s, il, ratio);
    assert(v.len() == 13 && w.len() == 13);
    assert(forall|k: int| 0 <= k < 7 ==> (#[trigger] v[k]).part@ == w[k] && v[k].home == Home::Attn);
    assert(forall|k: int|
        7 <= k < 12 ==> (#[trigger] v[k]).part@ == w[k + 1] && v[k].home == Home::Attn);
    assert(v[12].part@ == w[7] && v[12].home == Home::Attn);
    if w.contains(p) {
        let j = choose|j: int| 0 <= j < w.len() && w[j] == p;
        let k = if j < 7 {
            j
        } else if j == 7 {
            12
        } else {
            j - 1
        };
        assert(v[k].part@ == p);
        assert(layer_loads::loads(v, p, v[k].form, Home::Attn));
    }
    if exists|f: Form| #[trigger] layer_loads::loads(v, p, f, Home::Attn) {
        let f = choose|f: Form| #[trigger] layer_loads::loads(v, p, f, Home::Attn);
        let k = choose|k: int|
            0 <= k < v.len() && (#[trigger] v[k]).part@ == p && v[k].form == f && v[k].home
                == Home::Attn;
        let j = if k < 7 {
            k
        } else if k == 12 {
            7
        } else {
            k + 1
        };
        assert(w[j] == p);
    }
}

} // verus!
