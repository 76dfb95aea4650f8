//! Where a model's weights go: which card runs which layer's attention, how
//! a dense model is split, and how much device memory attention may take.

use vstd::prelude::*;

use crate::header;
use crate::header::{Header, TensorInfo, TensorType};
use crate::shape::{Family, Shape};
use crate::sort;
use crate::tensors;
use crate::text;
use crate::words;

verus! {

/// Outcome of the attention-card setting.
#[derive(Clone, Copy, Debug, PartialEq, Eq, Structural)]
pub enum GpuChoice {
    /// Nothing is forced.
    Auto,
    /// This card runs the attention.
    Use(i32),
    /// The setting names a card that cannot: it is ignored.
    Ignored(i32),
}

/// The setting switches attention offload off.
pub open spec fn is_off(setting: Seq<char>) -> bool {
    setting == "off"@ || setting == "-1"@
}

/// What the attention-card setting asks for. Two families have no offload; a
/// number must name a card other than the primary.
pub open spec fn gpu_choice(
    family: Family,
    setting: Option<Seq<char>>,
    primary: i32,
    n_dev: i32,
) -> GpuChoice {
    if family == Family::Dsv4 || family == Family::Qwen35 {
        GpuChoice::Auto
    } else {
        match setting {
            None => GpuChoice::Auto,
            Some(v) => if is_off(v) {
                GpuChoice::Auto
            } else {
                match words::integer_within(words::trimmed(v), i32::MIN as int, i32::MAX as int) {
                    Some(d) => if d != primary && 0 <= d < n_dev {
                        GpuChoice::Use(d as i32)
                    } else {
                        GpuChoice::Ignored(d as i32)
                    },
                    None => GpuChoice::Auto,
                }
            },
        }
    }
}

/// What the attention-card setting asks for.
pub fn choose_gpu(family: Family, setting: Option<&str>, primary: i32, n_dev: i32) -> (r: GpuChoice)
    ensures
        r == gpu_choice(
            family,
            match setting {
                Some(s) => Some(s@),
                None => None,
            },
            primary,
            n_dev,
        ),
{
    if family == Family::Dsv4 || family == Family::Qwen35 {
        return GpuChoice::Auto;
    }
    match setting {
        None => GpuChoice::Auto,
        Some(v) => {
            if text::same(v, "off") || text::same(v, "-1") {
                return GpuChoice::Auto;
            }
            match words::parse_i32_trimmed(v) {
                Some(d) => if d != primary && d >= 0 && d < n_dev {
                    GpuChoice::Use(d)
                } else {
                    GpuChoice::Ignored(d)
                },
                None => GpuChoice::Auto,
            }
        },
    }
}

/// Attention may be spread over the secondary cards layer by layer: two
/// families, no card forced, not switched off.
pub fn may_split(family: Family, choice: GpuChoice, setting: Option<&str>) -> (r: bool)
    ensures
        r == ((family == Family::Mla || family == Family::K3) && !(choice is Use) && (
        setting matches Some(s) ==> !is_off(s@))),
{
    let forced: bool = match choice {
        GpuChoice::Use(_) => true,
        _ => false,
    };
    let off: bool = match setting {
        Some(s) => text::same(s, "off") || text::same(s, "-1"),
        None => false,
    };
    (family == Family::Mla || family == Family::K3) && !forced && !off
}

/// Tensors that follow a latent-attention layer to its card.
pub open spec fn mla_parts() -> Seq<Seq<char>> {
    seq![
        "attn_q_a.weight"@,
        "attn_q_a_norm.weight"@,
        "attn_q_b.weight"@,
        "attn_kv_a_mqa.weight"@,
        "attn_kv_a_norm.weight"@,
        "attn_k_b.weight"@,
        "attn_v_b.weight"@,
        "attn_output.weight"@,
        "indexer.attn_q_b.weight"@,
        "indexer.attn_k.weight"@,
        "indexer.k_norm.weight"@,
        "indexer.k_norm.bias"@,
        "indexer.proj.weight"@,
    ]
}

/// Tensors that follow a hybrid delta/latent layer to its card.
pub open spec fn k3_parts() -> Seq<Seq<char>> {
    seq![
        "attn_q.weight"@,
        "attn_k.weight"@,
        "attn_v.weight"@,
        "ssm_conv1d_q.weight"@,
        "ssm_conv1d_k.weight"@,
        "ssm_conv1d_v.weight"@,
        "ssm_f_a.weight"@,
        "ssm_f_b.weight"@,
        "ssm_beta.weight"@,
        "ssm_a"@,
        "ssm_dt.bias"@,
        "ssm_g.weight"@,
        "ssm_norm.weight"@,
        "attn_q_a.weight"@,
        "attn_q_a_norm.weight"@,
        "attn_q_b.weight"@,
        "attn_kv_a_mqa.weight"@,
        "attn_kv_a_norm.weight"@,
        "attn_k_b.weight"@,
        "attn_v_b.weight"@,
        "attn_gate.weight"@,
        "attn_output.weight"@,
        "ffn_gate_shexp.weight"@,
        "ffn_up_shexp.weight"@,
        "ffn_down_shexp.weight"@,
    ]
}

pub open spec fn card_parts(k3: bool) -> Seq<Seq<char>> {
    if k3 {
        k3_parts()
    } else {
        mla_parts()
    }
}

/// `v` spells `parts`.
pub open spec fn spells(v: Seq<&'static str>, parts: Seq<Seq<char>>) -> bool {
    &&& v.len() == parts.len()
    &&& forall|i: int| 0 <= i < v.len() ==> (#[trigger] v[i])@ == parts[i]
}

fn part_names(k3: bool) -> (v: Vec<&'static str>)
    ensures
        spells(v@, card_parts(k3)),
{
    let mut v: Vec<&'static str> = Vec::new();
    if k3 {
        v.push("attn_q.weight");
        v.push("attn_k.weight");
        v.push("attn_v.weight");
        v.push("ssm_conv1d_q.weight");
        v.push("ssm_conv1d_k.weight");
        v.push("ssm_conv1d_v.weight");
        v.push("ssm_f_a.weight");
        v.push("ssm_f_b.weight");
        v.push("ssm_beta.weight");
        v.push("ssm_a");
        v.push("ssm_dt.bias");
        v.push("ssm_g.weight");
        v.push("ssm_norm.weight");
    }
    v.push("attn_q_a.weight");
    v.push("attn_q_a_norm.weight");
    v.push("attn_q_b.weight");
    v.push("attn_kv_a_mqa.weight");
    v.push("attn_kv_a_norm.weight");
    v.push("attn_k_b.weight");
    v.push("attn_v_b.weight");
    if k3 {
        v.push("attn_gate.weight");
        v.push("attn_output.weight");
        v.push("ffn_gate_shexp.weight");
        v.push("ffn_up_shexp.weight");
        v.push("ffn_down_shexp.weight");
    } else {
        v.push("attn_output.weight");
        v.push("indexer.attn_q_b.weight");
        v.push("indexer.attn_k.weight");
        v.push("indexer.k_norm.weight");
        v.push("indexer.k_norm.bias");
        v.push("indexer.proj.weight");
    }
    v
}

/// File bytes of one tensor; zero when it is missing or has no known size.
pub open spec fn file_bytes(h: &Header, name: Seq<char>) -> nat {
    match h.tensor_named(name) {
        Some(t) => match t.byte_size {
            Some(b) => b as nat,
            None => 0,
        },
        None => 0,
    }
}

/// File bytes of the first `n` parts of layer `il`.
pub open spec fn parts_bytes(h: &Header, il: nat, parts: Seq<Seq<char>>, n: int) -> nat
    decreases n,
{
    if n <= 0 {
        0
    } else {
        parts_bytes(h, il, parts, n - 1) + file_bytes(h, header::blk_name(il, parts[n - 1]))
    }
}

/// Bytes that a layer puts on its attention card.
pub open spec fn layer_weight(h: &Header, k3: bool, il: nat) -> nat {
    parts_bytes(h, il, card_parts(k3), card_parts(k3).len() as int)
}

proof fn lemma_parts_grow(h: &Header, il: nat, parts: Seq<Seq<char>>, a: int, b: int)
    requires
        a <= b,
    ensures
        parts_bytes(h, il, parts, a) <= parts_bytes(h, il, parts, b),
    decreases b - a,
{
    if a < b {
        lemma_parts_grow(h, il, parts, a, b - 1);
    }
}

/// Bytes that each layer puts on its attention card.
pub fn layer_weights(h: &Header, k3: bool, n_layer: u32) -> (lb: Vec<u64>)
    requires
        forall|il: nat| il < n_layer ==> #[trigger] layer_weight(h, k3, il) <= u64::MAX,
    ensures
        lb@.len() == n_layer,
        forall|i: int| 0 <= i < n_layer ==> #[trigger] lb@[i] == layer_weight(h, k3, i as nat),
{
    let parts = part_names(k3);
    let ghost ps = card_parts(k3);
    let mut lb: Vec<u64> = Vec::new();
    let mut il: u32 = 0;
    while il < n_layer
        invariant
            il <= n_layer,
            spells(parts@, ps),
            ps == card_parts(k3),
            forall|x: nat| x < n_layer ==> #[trigger] layer_weight(h, k3, x) <= u64::MAX,
            lb@.len() == il,
            forall|i: int| 0 <= i < il ==> #[trigger] lb@[i] == layer_weight(h, k3, i as nat),
        decreases n_layer - il,
    {
        let mut sum: u64 = 0;
        let mut i: usize = 0;
        assert(layer_weight(h, k3, il as nat) <= u64::MAX);
        while i < parts.len()
            invariant
                i <= parts@.len(),
                spells(parts@, ps),
                sum == parts_bytes(h, il as nat, ps, i as int),
                parts_bytes(h, il as nat, ps, ps.len() as int) <= u64::MAX,
            decreases parts@.len() - i,
        {
            let name = header::blk(il as u64, parts[i]);
            assert(parts@[i as int]@ == ps[i as int]);
            proof {
                lemma_parts_grow(h, il as nat, ps, i + 1, ps.len() as int);
            }
            let b: u64 = match h.tensor(name.as_str()) {
                Some(t) => match t.byte_size {
                    Some(b) => b,
                    None => 0,
                },
                None => 0,
            };
            sum = sum + b;
            i = i + 1;
        }
        lb.push(sum);
        il = il + 1;
    }
    lb
}

/// A secondary card and its free memory.
#[derive(Clone, Copy, Debug, PartialEq, Eq, Structural)]
pub struct Card {
    pub free: u64,
    pub dev: i32,
}

/// Bytes kept free on every attention card: context, scratch, slack.
pub const ATTN_RESERVE: u64 = 0x5000_0000;

/// What a card can hold of the weights.
pub open spec fn cap_of(c: Card) -> int {
    if c.free >= ATTN_RESERVE {
        c.free - ATTN_RESERVE
    } else {
        0
    }
}

/// Sum of what the first `n` cards can hold.
pub open spec fn total_cap(cards: Seq<Card>, n: int) -> int
    decreases n,
{
    if n <= 0 {
        0
    } else {
        total_cap(cards, n - 1) + cap_of(cards[n - 1])
    }
}

/// Sum of the weights `a..b`.
pub open spec fn range_sum(lb: Seq<u64>, a: int, b: int) -> int
    decreases b - a,
{
    if b <= a {
        0
    } else {
        range_sum(lb, a, b - 1) + lb[b - 1]
    }
}

/// Headroom left when everything is placed.
pub open spec fn spare_of(lb: Seq<u64>, cards: Seq<Card>) -> int {
    let cap = total_cap(cards, cards.len() as int);
    let w = range_sum(lb, 0, lb.len() as int);
    if cap >= w {
        cap - w
    } else {
        0
    }
}

/// How far card `c` is filled: its capacity less its even slice of the
/// headroom; the last card takes what rounding left.
pub open spec fn limit_of(lb: Seq<u64>, cards: Seq<Card>, c: int) -> int {
    let cap = cap_of(cards[c]);
    if c == cards.len() - 1 {
        cap
    } else {
        cap - spare_of(lb, cards) * cap / total_cap(cards, cards.len() as int)
    }
}

/// First layer from `il` on that no longer fits under `limit`.
pub open spec fn fill_to(lb: Seq<u64>, il: int, used: int, limit: int) -> int
    decreases lb.len() - il,
{
    if il < lb.len() && used + lb[il] <= limit {
        fill_to(lb, il + 1, used + lb[il], limit)
    } else {
        il
    }
}

/// First layer behind the first `c` cards.
pub open spec fn split_end(lb: Seq<u64>, cards: Seq<Card>, c: int) -> int
    decreases c,
{
    if c <= 0 {
        0
    } else {
        fill_to(lb, split_end(lb, cards, c - 1), 0, limit_of(lb, cards, c - 1))
    }
}

/// The card of layer `l`, looking at the first `c` cards only.
pub open spec fn split_owner(lb: Seq<u64>, cards: Seq<Card>, primary: i32, l: int, c: int) -> i32
    decreases c,
{
    if c <= 0 || l >= split_end(lb, cards, c) {
        primary
    } else if l >= split_end(lb, cards, c - 1) {
        cards[c - 1].dev
    } else {
        split_owner(lb, cards, primary, l, c - 1)
    }
}

proof fn lemma_fill_to(lb: Seq<u64>, il: int, used: int, limit: int)
    requires
        0 <= il <= lb.len(),
        0 <= used <= limit,
    ensures
        il <= fill_to(lb, il, used, limit) <= lb.len(),
        used + range_sum(lb, il, fill_to(lb, il, used, limit)) <= limit,
    decreases lb.len() - il,
{
    if il < lb.len() && used + lb[il] <= limit {
        lemma_fill_to(lb, il + 1, used + lb[il], limit);
        lemma_range_split(lb, il, il + 1, fill_to(lb, il + 1, used + lb[il], limit));
        reveal_with_fuel(range_sum, 2);
    }
}

proof fn lemma_range_split(lb: Seq<u64>, a: int, m: int, b: int)
    requires
        a <= m <= b,
    ensures
        range_sum(lb, a, b) == range_sum(lb, a, m) + range_sum(lb, m, b),
    decreases b - m,
{
    if m < b {
        lemma_range_split(lb, a, m, b - 1);
    }
}

proof fn lemma_total_cap(cards: Seq<Card>, n: int)
    requires
        0 <= n <= cards.len(),
    ensures
        0 <= total_cap(cards, n),
        forall|c: int| 0 <= c < n ==> cap_of(#[trigger] cards[c]) <= total_cap(cards, n),
    decreases n,
{
    if n > 0 {
        lemma_total_cap(cards, n - 1);
    }
}

proof fn lemma_limit(lb: Seq<u64>, cards: Seq<Card>, c: int)
    requires
        0 <= c < cards.len(),
        total_cap(cards, cards.len() as int) > 0,
        range_sum(lb, 0, lb.len() as int) >= 0,
    ensures
        0 <= limit_of(lb, cards, c) <= cap_of(cards[c]),
{
    let t = total_cap(cards, cards.len() as int);
    let s = spare_of(lb, cards);
    let cap = cap_of(cards[c]);
    lemma_total_cap(cards, cards.len() as int);
    assert(0 <= s * cap / t <= cap) by (nonlinear_arith)
        requires
            0 <= s <= t,
            0 <= cap,
            t > 0,
    ;
}

proof fn lemma_range_nonneg(lb: Seq<u64>, a: int, b: int)
    ensures
        range_sum(lb, a, b) >= 0,
    decreases b - a,
{
    if a < b {
        lemma_range_nonneg(lb, a, b - 1);
    }
}

proof fn lemma_split_ends(lb: Seq<u64>, cards: Seq<Card>, c: int)
    requires
        0 <= c <= cards.len(),
        total_cap(cards, cards.len() as int) > 0,
    ensures
        0 <= split_end(lb, cards, c) <= lb.len(),
        c > 0 ==> split_end(lb, cards, c - 1) <= split_end(lb, cards, c),
        c > 0 ==> range_sum(lb, split_end(lb, cards, c - 1), split_end(lb, cards, c)) <= limit_of(
            lb,
            cards,
            c - 1,
        ),
    decreases c,
{
    if c > 0 {
        lemma_split_ends(lb, cards, c - 1);
        lemma_range_nonneg(lb, 0, lb.len() as int);
        lemma_limit(lb, cards, c - 1);
        lemma_fill_to(lb, split_end(lb, cards, c - 1), 0, limit_of(lb, cards, c - 1));
    }
}

/// Each card gets one stretch of layers, in card order, that fits its
/// memory.
pub proof fn split_is_contiguous_and_fits(lb: Seq<u64>, cards: Seq<Card>, primary: i32, c: int, l: int)
    requires
        0 <= c < cards.len(),
        total_cap(cards, cards.len() as int) > 0,
        split_end(lb, cards, c) <= l < split_end(lb, cards, c + 1),
    ensures
        split_owner(lb, cards, primary, l, cards.len() as int) == cards[c].dev,
        range_sum(lb, split_end(lb, cards, c), split_end(lb, cards, c + 1)) <= cap_of(cards[c]),
{
    lemma_split_ends(lb, cards, c + 1);
    lemma_range_nonneg(lb, 0, lb.len() as int);
    lemma_limit(lb, cards, c);
    lemma_owner_stable(lb, cards, primary, l, c + 1, cards.len() as int);
}

proof fn lemma_owner_stable(
    lb: Seq<u64>,
    cards: Seq<Card>,
    primary: i32,
    l: int,
    a: int,
    b: int,
)
    requires
        0 <= a <= b <= cards.len(),
        total_cap(cards, cards.len() as int) > 0,
        l < split_end(lb, cards, a),
    ensures
        split_owner(lb, cards, primary, l, b) == split_owner(lb, cards, primary, l, a),
        l < split_end(lb, cards, b),
    decreases b - a,
{
    if a < b {
        lemma_owner_stable(lb, cards, primary, l, a, b - 1);
        lemma_split_ends(lb, cards, b);
    }
}

/// Which card runs the attention of each layer.
pub struct Split {
    /// One card per layer, and one for the draft slot behind the last layer.
    pub devs: Vec<i32>,
    /// Layers that found a secondary card; the rest stay on the primary.
    pub placed: usize,
}

/// Free memory of each card.
pub open spec fn frees(cards: Seq<Card>) -> Seq<u64> {
    Seq::new(cards.len(), |i: int| cards[i].free)
}

/// `p` ranks the cards from the roomiest on.
pub open spec fn ranks_cards(cards: Seq<Card>, p: Seq<usize>) -> bool {
    sort::ranks(sort::flipped(frees(cards)), 0, cards.len() as int, p)
}

/// `cs` are the cards from the roomiest on.
pub open spec fn roomiest_first(cs: Seq<Card>, cards: Seq<Card>) -> bool {
    exists|p: Seq<usize>| #[trigger]
        ranks_cards(cards, p) && cs == Seq::new(p.len(), |i: int| cards[p[i] as int])
}

/// A layer split over cards in this order.
pub open spec fn is_split(s: &Split, lb: Seq<u64>, cs: Seq<Card>, primary: i32) -> bool {
    let n = lb.len() as int;
    let some = total_cap(cs, cs.len() as int) > 0;
    &&& s.devs@.len() == n + 1
    &&& s.placed == if some { split_end(lb, cs, cs.len() as int) } else { 0 }
    &&& forall|l: int|
        0 <= l < n ==> #[trigger] s.devs@[l] == if some {
            split_owner(lb, cs, primary, l, cs.len() as int)
        } else {
            primary
        }
    &&& s.devs@[n] == if n > 0 { s.devs@[n - 1] } else { primary }
}

fn sort_cards(cards: &Vec<Card>) -> (cs: Vec<Card>)
    ensures
        roomiest_first(cs@, cards@),
        cs@.len() == cards@.len(),
{
    let mut keys: Vec<u64> = Vec::new();
    let mut i: usize = 0;
    while i < cards.len()
        invariant
            i <= cards@.len(),
            keys@ =~= frees(cards@).take(i as int),
        decreases cards@.len() - i,
    {
        keys.push(cards[i].free);
        i = i + 1;
    }
    assert(keys@ =~= frees(cards@));
    let p = sort::rank_desc(&keys);
    assert(ranks_cards(cards@, p@));
    let mut out: Vec<Card> = Vec::new();
    let mut j: usize = 0;
    while j < p.len()
        invariant
            j <= p@.len(),
            p@.len() == cards@.len(),
            ranks_cards(cards@, p@),
            out@ =~= Seq::new(p@.len(), |k: int| cards@[p@[k] as int]).take(j as int),
        decreases p@.len() - j,
    {
        out.push(cards[p[j]]);
        j = j + 1;
    }
    assert(out@ =~= Seq::new(p@.len(), |k: int| cards@[p@[k] as int]));
    out
}

proof fn lemma_cap_without(s: Seq<Card>, j: int)
    requires
        0 <= j < s.len(),
    ensures
        total_cap(s, s.len() as int) == total_cap(s.remove(j), s.len() - 1) + cap_of(s[j]),
    decreases s.len(),
{
    let n = s.len() as int;
    let r = s.remove(j);
    if j == n - 1 {
        lemma_cap_prefix(s, r, n - 1);
    } else {
        let short = s.drop_last();
        lemma_cap_without(short, j);
        lemma_cap_prefix(s, short, n - 1);
        lemma_cap_prefix(r, short.remove(j), n - 2);
        assert(r[n - 2] == s[n - 1]);
    }
}

proof fn lemma_cap_prefix(a: Seq<Card>, b: Seq<Card>, n: int)
    requires
        n <= a.len(),
        n <= b.len(),
        forall|i: int| 0 <= i < n ==> a[i] == b[i],
    ensures
        total_cap(a, n) == total_cap(b, n),
    decreases n,
{
    if n > 0 {
        lemma_cap_prefix(a, b, n - 1);
    }
}

proof fn lemma_cap_reordered(cards: Seq<Card>, p: Seq<usize>)
    requires
        cards.len() <= usize::MAX,
        p.len() == cards.len(),
        forall|i: int| 0 <= i < p.len() ==> (#[trigger] p[i]) < cards.len(),
        forall|i: int, j: int| 0 <= i < j < p.len() ==> #[trigger] p[i] != #[trigger] p[j],
        forall|k: usize| k < cards.len() ==> #[trigger] p.contains(k),
    ensures
        total_cap(Seq::new(p.len(), |i: int| cards[p[i] as int]), p.len() as int) == total_cap(
            cards,
            cards.len() as int,
        ),
    decreases cards.len(),
{
    let n = cards.len() as int;
    let all = Seq::new(p.len(), |i: int| cards[p[i] as int]);
    if n > 0 {
        let last = (n - 1) as usize;
        assert(p[0] < cards.len());
        assert(last == n - 1);
        assert(p.contains(last));
        let j = p.index_of(last);
        let q = p.remove(j);
        let short = cards.drop_last();
        assert forall|i: int| 0 <= i < q.len() implies (#[trigger] q[i]) < short.len() by {
            let m = if i < j { i } else { i + 1 };
            assert(q[i] == p[m]);
            assert(p[m] != p[j]);
        }
        assert forall|a: int, b: int| 0 <= a < b < q.len() implies #[trigger] q[a] != #[trigger] q[b] by {
            let x = if a < j { a } else { a + 1 };
            let y = if b < j { b } else { b + 1 };
            assert(q[a] == p[x] && q[b] == p[y]);
        }
        assert forall|k: usize| k < short.len() implies #[trigger] q.contains(k) by {
            assert(p.contains(k));
            let m = p.index_of(k);
            assert(p[m] == k && m != j);
            let i = if m < j { m } else { m - 1 };
            assert(q[i] == k);
        }
        lemma_cap_reordered(short, q);
        let rest = Seq::new(q.len(), |i: int| short[q[i] as int]);
        assert(all.remove(j) =~= rest);
        lemma_cap_without(all, j);
        lemma_cap_prefix(cards, short, n - 1);
    }
}

proof fn lemma_same_cap(cs: Seq<Card>, cards: Seq<Card>)
    requires
        roomiest_first(cs, cards),
        cards.len() <= usize::MAX,
    ensures
        total_cap(cs, cs.len() as int) == total_cap(cards, cards.len() as int),
{
    let p = choose|p: Seq<usize>| #[trigger]
        ranks_cards(cards, p) && cs == Seq::new(p.len(), |i: int| cards[p[i] as int]);
    assert forall|i: int, j: int| 0 <= i < j < p.len() implies #[trigger] p[i] != #[trigger] p[j] by {
        assert(sort::before(sort::flipped(frees(cards)), p[i] as int, p[j] as int));
    }
    lemma_cap_reordered(cards, p);
}

/// Test whether a split's sums stay within 64 bits.
pub fn split_sums_fit(lb: &Vec<u64>, cards: &Vec<Card>) -> (r: bool)
    ensures
        r == (range_sum(lb@, 0, lb@.len() as int) <= u64::MAX && total_cap(
            cards@,
            cards@.len() as int,
        ) <= u64::MAX),
{
    let max: u128 = u64::MAX as u128;
    let mut w: u128 = 0;
    let mut k: usize = 0;
    while k < lb.len()
        invariant
            k <= lb@.len(),
            max == u64::MAX,
            w == range_sum(lb@, 0, k as int),
            w <= max,
        decreases lb@.len() - k,
    {
        w = w + lb[k] as u128;
        k = k + 1;
        if w > max {
            proof {
                lemma_range_split(lb@, 0, k as int, lb@.len() as int);
                lemma_range_nonneg(lb@, k as int, lb@.len() as int);
            }
            return false;
        }
    }
    let mut total: u128 = 0;
    let mut c: usize = 0;
    while c < cards.len()
        invariant
            c <= cards@.len(),
            max == u64::MAX,
            total == total_cap(cards@, c as int),
            total <= max,
        decreases cards@.len() - c,
    {
        total = total + cap(cards[c]) as u128;
        c = c + 1;
        if total > max {
            proof {
                lemma_cap_grows(cards@, c as int, cards@.len() as int);
            }
            return false;
        }
    }
    true
}

fn cap(c: Card) -> (r: u64)
    ensures
        r == cap_of(c),
{
    if c.free >= ATTN_RESERVE {
        c.free - ATTN_RESERVE
    } else {
        0
    }
}

/// Spread the layers' attention over the secondary cards.
pub fn split_layers(lb: &Vec<u64>, cards: &Vec<Card>, primary: i32) -> (s: Split)
    requires
        lb@.len() < usize::MAX,
        range_sum(lb@, 0, lb@.len() as int) <= u64::MAX,
        total_cap(cards@, cards@.len() as int) <= u64::MAX,
    ensures
        exists|cs: Seq<Card>| #[trigger]
            roomiest_first(cs, cards@) && is_split(&s, lb@, cs, primary),
{
    let cs = sort_cards(cards);
    proof {
        lemma_same_cap(cs@, cards@);
    }
    let n: usize = lb.len();
    let mut devs: Vec<i32> = Vec::new();
    let mut i: usize = 0;
    while i < n + 1
        invariant
            i <= n + 1,
            n < usize::MAX,
            devs@.len() == i,
            forall|k: int| 0 <= k < i ==> #[trigger] devs@[k] == primary,
        decreases n + 1 - i,
    {
        devs.push(primary);
        i = i + 1;
    }
    let mut w: u64 = 0;
    let mut k: usize = 0;
    while k < n
        invariant
            k <= n,
            n == lb@.len(),
            w == range_sum(lb@, 0, k as int),
            range_sum(lb@, 0, n as int) <= u64::MAX,
        decreases n - k,
    {
        proof {
            lemma_range_split(lb@, 0, k + 1, n as int);
            lemma_range_nonneg(lb@, k + 1, n as int);
        }
        w = w + lb[k];
        k = k + 1;
    }
    let mut total: u64 = 0;
    let mut c: usize = 0;
    while c < cs.len()
        invariant
            c <= cs@.len(),
            total == total_cap(cs@, c as int),
            total_cap(cs@, cs@.len() as int) <= u64::MAX,
        decreases cs@.len() - c,
    {
        proof {
            lemma_cap_grows(cs@, c + 1, cs@.len() as int);
        }
        total = total + cap(cs[c]);
        c = c + 1;
    }
    let mut il: usize = 0;
    if total > 0 {
        let spare: u64 = if total >= w { total - w } else { 0 };
        let mut ci: usize = 0;
        while ci < cs.len()
            invariant
                ci <= cs@.len(),
                n == lb@.len(),
                total == total_cap(cs@, cs@.len() as int),
                total > 0,
                w == range_sum(lb@, 0, n as int),
                spare == spare_of(lb@, cs@),
                il == split_end(lb@, cs@, ci as int),
                il <= n,
                devs@.len() == n + 1,
                forall|l: int|
                    0 <= l < n ==> #[trigger] devs@[l] == split_owner(
                        lb@,
                        cs@,
                        primary,
                        l,
                        ci as int,
                    ),
                devs@[n as int] == primary,
            decreases cs@.len() - ci,
        {
            let cc: u64 = cap(cs[ci]);
            proof {
                lemma_total_cap(cs@, cs@.len() as int);
                assert(cc <= total);
                assert(spare * cc <= u64::MAX * u64::MAX) by (nonlinear_arith)
                    requires
                        spare <= u64::MAX,
                        cc <= u64::MAX,
                ;
                lemma_limit(lb@, cs@, ci as int);
                lemma_split_ends(lb@, cs@, ci + 1);
            }
            let slice: u128 = spare as u128 * cc as u128 / total as u128;
            proof {
                assert(slice <= cc) by (nonlinear_arith)
                    requires
                        slice == spare * cc / (total as int),
                        0 <= spare <= total,
                        0 <= cc,
                        total > 0,
                ;
            }
            let share: u64 = if ci == cs.len() - 1 { cc } else { cc - slice as u64 };
            assert(share == limit_of(lb@, cs@, ci as int));
            let mut used: u64 = 0;
            let ghost start = il as int;
            let ghost before = devs@;
            while il < n && lb[il] <= share - used
                invariant
                    n == lb@.len(),
                    start <= il <= n,
                    used <= share,
                    ci < cs@.len(),
                    share == limit_of(lb@, cs@, ci as int),
                    fill_to(lb@, start, 0, share as int) == fill_to(
                        lb@,
                        il as int,
                        used as int,
                        share as int,
                    ),
                    devs@.len() == n + 1,
                    before.len() == n + 1,
                    forall|l: int|
                        0 <= l <= n ==> #[trigger] devs@[l] == if start <= l < il {
                            cs@[ci as int].dev
                        } else {
                            before[l]
                        },
                decreases n - il,
            {
                used = used + lb[il];
                devs.set(il, cs[ci].dev);
                il = il + 1;
            }
            proof {
                assert(il == split_end(lb@, cs@, ci + 1));
                assert forall|l: int| 0 <= l < n implies #[trigger] devs@[l] == split_owner(
                    lb@,
                    cs@,
                    primary,
                    l,
                    ci + 1,
                ) by {
                    if l < start {
                        assert(before[l] == split_owner(lb@, cs@, primary, l, ci as int));
                    } else if l >= il {
                        lemma_owner_past(lb@, cs@, primary, l, ci as int);
                        assert(before[l] == split_owner(lb@, cs@, primary, l, ci as int));
                    }
                }
            }
            ci = ci + 1;
        }
    }
    if n > 0 {
        let last: i32 = devs[n - 1];
        devs.set(n, last);
    }
    let s = Split { devs, placed: il };
    assert(is_split(&s, lb@, cs@, primary));
    s
}

proof fn lemma_owner_past(lb: Seq<u64>, cards: Seq<Card>, primary: i32, l: int, c: int)
    requires
        l >= split_end(lb, cards, c),
    ensures
        split_owner(lb, cards, primary, l, c) == primary,
{
}

proof fn lemma_cap_grows(cards: Seq<Card>, a: int, b: int)
    requires
        0 <= a <= b <= cards.len(),
    ensures
        total_cap(cards, a) <= total_cap(cards, b),
    decreases b - a,
{
    if a < b {
        lemma_cap_grows(cards, a, b - 1);
    }
}

/// The first card that is not the primary.
pub open spec fn first_off(devs: Seq<i32>, primary: i32, n: int) -> Option<i32>
    decreases n,
{
    if n <= 0 {
        None
    } else {
        match first_off(devs, primary, n - 1) {
            Some(d) => Some(d),
            None => if devs[n - 1] != primary { Some(devs[n - 1]) } else { None },
        }
    }
}

/// The first card off the primary that runs some layer's attention.
pub fn first_offload(devs: &Vec<i32>, primary: i32) -> (r: Option<i32>)
    ensures
        r == first_off(devs@, primary, devs@.len() as int),
{
    let mut found: Option<i32> = None;
    let mut i: usize = 0;
    while i < devs.len()
        invariant
            i <= devs@.len(),
            found == first_off(devs@, primary, i as int),
        decreases devs@.len() - i,
    {
        if found.is_none() && devs[i] != primary {
            found = Some(devs[i]);
        }
        i = i + 1;
    }
    found
}

/// Last index of the stretch of equal values that starts at `i`.
pub open spec fn run_end(v: Seq<i32>, i: int, n: int) -> int
    decreases n - i,
{
    if i + 1 < n && v[i + 1] == v[i] {
        run_end(v, i + 1, n)
    } else {
        i
    }
}

/// A stretch of layers on one card, both ends inside.
#[derive(Clone, Copy, Debug, PartialEq, Eq, Structural)]
pub struct Run {
    pub first: usize,
    pub last: usize,
    pub dev: i32,
}

/// The stretches of equal values of `v[i..n]`.
pub open spec fn runs_from(v: Seq<i32>, i: int, n: int) -> Seq<Run>
    decreases n - i,
    when 0 <= i
{
    proof {
        if i < n {
            lemma_run_end(v, i, n);
        }
    }
    if i >= n {
        Seq::empty()
    } else {
        let j = run_end(v, i, n);
        seq![Run { first: i as usize, last: j as usize, dev: v[i] }] + runs_from(v, j + 1, n)
    }
}

pub proof fn lemma_run_end(v: Seq<i32>, i: int, n: int)
    requires
        0 <= i < n,
    ensures
        i <= run_end(v, i, n) < n,
        forall|k: int| i <= k <= run_end(v, i, n) ==> #[trigger] v[k] == v[i],
    decreases n - i,
{
    if i + 1 < n && v[i + 1] == v[i] {
        lemma_run_end(v, i + 1, n);
    }
}

/// The stretches of layers that share a card, over the first `n` entries.
pub fn layer_runs(v: &Vec<i32>, n: usize) -> (r: Vec<Run>)
    requires
        n <= v@.len(),
    ensures
        r@ == runs_from(v@, 0, n as int),
{
    let mut out: Vec<Run> = Vec::new();
    let mut i: usize = 0;
    assert(Seq::<Run>::empty() + runs_from(v@, 0, n as int) =~= runs_from(v@, 0, n as int));
    while i < n
        invariant
            i <= n <= v@.len(),
            out@ + runs_from(v@, i as int, n as int) == runs_from(v@, 0, n as int),
        decreases n - i,
    {
        let mut j: usize = i;
        while j + 1 < n && v[j + 1] == v[i]
            invariant
                i <= j < n <= v@.len(),
                v@[j as int] == v@[i as int],
                run_end(v@, i as int, n as int) == run_end(v@, j as int, n as int),
            decreases n - j,
        {
            j = j + 1;
        }
        let ghost was = out@;
        out.push(Run { first: i, last: j, dev: v[i] });
        proof {
            assert(run_end(v@, i as int, n as int) == j);
            assert(out@ + runs_from(v@, j + 1, n as int) =~= was + runs_from(
                v@,
                i as int,
                n as int,
            ));
        }
        i = j + 1;
    }
    assert(out@ + Seq::<Run>::empty() =~= out@);
    out
}

/// Device bytes of the first `n` tensors of layer `il`.
pub open spec fn resident_bytes(ts: Seq<TensorInfo>, head: Seq<char>, n: int) -> nat
    decreases n,
{
    if n <= 0 {
        0
    } else {
        resident_bytes(ts, head, n - 1) + if text::begins_with(ts[n - 1].name@, head) {
            tensors::vram_of(&ts[n - 1]) as nat
        } else {
            0
        }
    }
}

/// Name prefix of a layer's tensors.
pub open spec fn layer_prefix(il: nat) -> Seq<char> {
    "blk."@ + text::digits(il) + "."@
}

/// The tensors' sizes can be taken.
pub open spec fn sizes_fit(h: &Header) -> bool {
    forall|i: int|
        0 <= i < h.tensors@.len() ==> {
            let t = #[trigger] h.tensors@[i];
            &&& (t.ty == TensorType::Q4K || t.ty == TensorType::Q6K ==> t.dims@.len() > 0)
            &&& (t.n_elements / 32) * 34 <= u64::MAX
        }
}

/// Device bytes of a whole layer.
pub fn layer_resident_bytes(h: &Header, il: u32) -> (n: u64)
    requires
        sizes_fit(h),
        resident_bytes(h.tensors@, layer_prefix(il as nat), h.tensors@.len() as int) <= u64::MAX,
    ensures
        n == resident_bytes(h.tensors@, layer_prefix(il as nat), h.tensors@.len() as int),
{
    let mut head = String::from_str("blk.");
    text::push_decimal(&mut head, il as u64);
    head.append(".");
    let ghost hs = layer_prefix(il as nat);
    assert(head@ == hs);
    let mut sum: u64 = 0;
    let mut i: usize = 0;
    while i < h.tensors.len()
        invariant
            i <= h.tensors@.len(),
            head@ == hs,
            sizes_fit(h),
            sum == resident_bytes(h.tensors@, hs, i as int),
            resident_bytes(h.tensors@, hs, h.tensors@.len() as int) <= u64::MAX,
        decreases h.tensors@.len() - i,
    {
        proof {
            lemma_resident_grows(h.tensors@, hs, i + 1, h.tensors@.len() as int);
        }
        assert(h.tensors@[i as int] == h.tensors@[i as int]);
        if text::has_prefix(h.tensors[i].name.as_str(), head.as_str()) {
            sum = sum + tensors::vram_bytes(&h.tensors[i]);
        }
        i = i + 1;
    }
    sum
}

proof fn lemma_resident_grows(ts: Seq<TensorInfo>, head: Seq<char>, a: int, b: int)
    requires
        a <= b,
    ensures
        resident_bytes(ts, head, a) <= resident_bytes(ts, head, b),
    decreases b - a,
{
    if a < b {
        lemma_resident_grows(ts, head, a, b - 1);
    }
}

/// Bytes kept free on the primary when a dense model is split.
pub const DENSE_RESERVE: u64 = 0x8000_0000;

/// The first `n` layers fit the primary beside what is there anyway.
pub open spec fn dense_fits(lb: Seq<u64>, fixed: u64, free: u64, n: int) -> bool {
    fixed + range_sum(lb, 0, n) + DENSE_RESERVE <= free
}

/// Number of leading layers on the primary: as many as fit, unless forced.
pub open spec fn is_dense_split(
    n0: int,
    lb: Seq<u64>,
    fixed: u64,
    free: Option<u64>,
    forced: Option<usize>,
) -> bool {
    match forced {
        Some(f) => n0 == if f < lb.len() { f as int } else { lb.len() as int },
        None => match free {
            None => n0 == lb.len(),
            Some(m) => {
                &&& 0 <= n0 <= lb.len()
                &&& n0 == 0 || dense_fits(lb, fixed, m, n0)
                &&& forall|k: int| n0 < k <= lb.len() ==> !#[trigger] dense_fits(lb, fixed, m, k)
            },
        },
    }
}

/// Number of leading layers of a dense model that stay on the primary.
pub fn dense_split(lb: &Vec<u64>, fixed: u64, free: Option<u64>, forced: Option<usize>) -> (n0: usize)
    requires
        lb@.len() <= u32::MAX,
    ensures
        is_dense_split(n0 as int, lb@, fixed, free, forced),
{
    let len: usize = lb.len();
    match forced {
        Some(f) => {
            return if f < len { f } else { len };
        },
        None => {},
    }
    let m: u64 = match free {
        None => {
            return len;
        },
        Some(m) => m,
    };
    let mut sum: u128 = 0;
    let mut i: usize = 0;
    while i < len
        invariant
            i <= len,
            len == lb@.len(),
            len <= u32::MAX,
            sum == range_sum(lb@, 0, i as int),
            sum <= i * u64::MAX,
        decreases len - i,
    {
        assert((i + 1) * u64::MAX == i * u64::MAX + u64::MAX) by (nonlinear_arith);
        assert((i + 1) * u64::MAX <= 0x1_0000_0000 * u64::MAX) by (nonlinear_arith)
            requires
                i + 1 <= 0x1_0000_0000,
        ;
        sum = sum + lb[i] as u128;
        i = i + 1;
    }
    let mut n0: usize = len;
    assert(len * u64::MAX <= 0x1_0000_0000 * u64::MAX) by (nonlinear_arith)
        requires
            len <= 0x1_0000_0000,
    ;
    while n0 > 0 && fixed as u128 + sum + DENSE_RESERVE as u128 > m as u128
        invariant
            n0 <= len,
            len == lb@.len(),
            sum == range_sum(lb@, 0, n0 as int),
            sum <= 0x1_0000_0000 * u64::MAX,
            forall|k: int| n0 < k <= len ==> !#[trigger] dense_fits(lb@, fixed, m, k),
        decreases n0,
    {
        proof {
            lemma_range_nonneg(lb@, 0, n0 - 1);
            assert(!dense_fits(lb@, fixed, m, n0 as int));
        }
        sum = sum - lb[n0 - 1] as u128;
        n0 = n0 - 1;
    }
    n0
}

/// The card with the most free memory; of equals the last.
pub open spec fn is_roomiest(cards: Seq<Card>, d: i32) -> bool {
    exists|i: int|
        {
            &&& 0 <= i < cards.len()
            &&& (#[trigger] cards[i]).dev == d
            &&& forall|j: int| 0 <= j < cards.len() ==> (#[trigger] cards[j]).free <= cards[i].free
            &&& forall|j: int| i < j < cards.len() ==> (#[trigger] cards[j]).free < cards[i].free
        }
}

/// The card with the most free memory.
pub fn roomiest(cards: &Vec<Card>) -> (r: Option<i32>)
    ensures
        match r {
            Some(d) => is_roomiest(cards@, d),
            None => cards@.len() == 0,
        },
{
    if cards.len() == 0 {
        return None;
    }
    let mut best: usize = 0;
    let mut i: usize = 1;
    while i < cards.len()
        invariant
            best < i <= cards@.len(),
            forall|j: int| 0 <= j < i ==> (#[trigger] cards@[j]).free <= cards@[best as int].free,
            forall|j: int|
                best < j < i ==> (#[trigger] cards@[j]).free < cards@[best as int].free,
        decreases cards@.len() - i,
    {
        if cards[i].free >= cards[best].free {
            best = i;
        }
        i = i + 1;
    }
    assert(cards@[best as int].dev == cards@[best as int].dev);
    Some(cards[best].dev)
}

/// Device bytes attention may take: a setting in gibibytes where there is
/// one, a default by family otherwise. Grouped-query attention always fits.
pub open spec fn attn_budget(family: Family, offload: bool, gib: Option<i64>) -> i64 {
    let set: Option<i64> = match gib {
        Some(g) => Some((g << 30u64) as i64),
        None => None,
    };
    match (family, set) {
        (Family::Gqa, _) => i64::MAX,
        (_, Some(b)) => b,
        (Family::Mla, None) => if offload { i64::MAX } else { 0x1_4000_0000 },
        (Family::Dsv4, None) => 0x2_0000_0000,
        (Family::Qwen35, None) => i64::MAX,
        (Family::K3, None) => i64::MAX,
    }
}

/// Device bytes attention may take.
pub fn attn_vram_budget(family: Family, offload: bool, gib: Option<i64>) -> (b: i64)
    ensures
        b == attn_budget(family, offload, gib),
{
    let set: Option<i64> = match gib {
        Some(g) => Some(g << 30u64),
        None => None,
    };
    match family {
        Family::Gqa => i64::MAX,
        Family::Mla => match set {
            Some(b) => b,
            None => if offload {
                i64::MAX
            } else {
                0x1_4000_0000
            },
        },
        Family::Dsv4 => match set {
            Some(b) => b,
            None => 0x2_0000_0000,
        },
        Family::Qwen35 | Family::K3 => match set {
            Some(b) => b,
            None => i64::MAX,
        },
    }
}

/// Reserve of the primary when latent attention has no card of its own.
pub const MLA_RESERVE: i64 = 0x2_4000_0000;

/// Budget after the clamp to what the primary has free.
pub open spec fn clamped_budget(family: Family, offload: bool, budget: i64, free: Option<u64>) -> i64 {
    match free {
        Some(f) => {
            let cap = f - MLA_RESERVE;
            if !offload && family == Family::Mla && budget < i64::MAX && cap > 0 && budget > cap {
                cap as i64
            } else {
                budget
            }
        },
        None => budget,
    }
}

/// Clamp the budget to what the primary has free.
pub fn clamp_budget(family: Family, offload: bool, budget: i64, free: Option<u64>) -> (b: i64)
    requires
        free matches Some(f) ==> f <= i64::MAX,
    ensures
        b == clamped_budget(family, offload, budget, free),
{
    match free {
        Some(f) => {
            let cap: i64 = f as i64 - MLA_RESERVE;
            if !offload && family == Family::Mla && budget < i64::MAX && cap > 0 && budget > cap {
                cap
            } else {
                budget
            }
        },
        None => budget,
    }
}

/// Number of draft steps: three unless set, between one and eight; none
/// without a draft layer.
pub fn mtp_depth(has_mtp: bool, setting: Option<&str>) -> (d: u32)
    ensures
        d == if !has_mtp {
            0
        } else {
            match setting {
                Some(s) => match text::number_upto(s@, u32::MAX as nat) {
                    Some(n) => if n < 1 {
                        1
                    } else if n > 8 {
                        8
                    } else {
                        n as u32
                    },
                    None => 3,
                },
                None => 3,
            }
        },
{
    if !has_mtp {
        return 0;
    }
    let n: u32 = match setting {
        Some(s) => match words::parse_u32(s) {
            Some(n) => n,
            None => 3,
        },
        None => 3,
    };
    if n < 1 {
        1
    } else if n > 8 {
        8
    } else {
        n
    }
}

/// A dense hybrid may be split over two cards: there is a second one, and it
/// is not switched off.
pub fn may_split_dense(s: &Shape, n_dev: i32, setting: Option<&str>) -> (r: bool)
    ensures
        r == (s.family == Family::Qwen35 && s.n_expert == 1 && n_dev > 1 && (setting matches Some(
            v,
        ) ==> v@ != "off"@)),
{
    let off: bool = match setting {
        Some(v) => text::same(v, "off"),
        None => false,
    };
    s.family == Family::Qwen35 && s.n_expert == 1 && n_dev > 1 && !off
}

/// Bytes that are on the primary however a dense model is split: the head,
/// and the embedding in blocks of 34 bytes for 32 elements.
pub open spec fn fixed_bytes(h: &Header) -> int {
    (match h.tensor_named("output.weight"@) {
        Some(t) => match t.byte_size {
            Some(n) => n as int,
            None => 0,
        },
        None => 0,
    }) + (match h.tensor_named("token_embd.weight"@) {
        Some(t) => t.n_elements / 32 * 34,
        None => 0,
    })
}

/// Bytes that are on the primary however a dense model is split.
pub fn dense_fixed(h: &Header) -> (r: Option<u64>)
    ensures
        match r {
            Some(n) => n == fixed_bytes(h),
            None => fixed_bytes(h) > u64::MAX,
        },
{
    let head: u64 = match h.tensor("output.weight") {
        Some(t) => match t.byte_size {
            Some(n) => n,
            None => 0,
        },
        None => 0,
    };
    let embed: u128 = match h.tensor("token_embd.weight") {
        Some(t) => (t.n_elements / 32) as u128 * 34,
        None => 0,
    };
    let n: u128 = head as u128 + embed;
    if n <= u64::MAX as u128 {
        Some(n as u64)
    } else {
        None
    }
}

/// The owner of each layer when the first `n0` stay on the primary.
pub fn dense_devs(n: usize, n0: usize, primary: i32, second: i32) -> (v: Vec<i32>)
    ensures
        v@.len() == n,
        forall|i: int|
            0 <= i < n ==> #[trigger] v@[i] == if i < n0 {
                primary
            } else {
                second
            },
{
    let mut v: Vec<i32> = Vec::new();
    let mut i: usize = 0;
    while i < n
        invariant
            i <= n,
            v@.len() == i,
            forall|j: int|
                0 <= j < i ==> #[trigger] v@[j] == if j < n0 {
                    primary
                } else {
                    second
                },
        decreases n - i,
    {
        v.push(
            if i < n0 {
                primary
            } else {
                second
            },
        );
        i = i + 1;
    }
    v
}

/// The card that runs a layer's attention: one family has a card for each
/// layer, the others one for all.
pub fn attn_card(family: Family, layer_dev: &Vec<i32>, dev: Option<i32>, il: usize, primary: i32) -> (d: i32)
    ensures
        d == if family == Family::Mla {
            if il < layer_dev@.len() {
                layer_dev@[il as int]
            } else {
                primary
            }
        } else {
            match dev {
                Some(x) => x,
                None => primary,
            }
        },
{
    if family == Family::Mla {
        if il < layer_dev.len() {
            layer_dev[il]
        } else {
            primary
        }
    } else {
        match dev {
            Some(x) => x,
            None => primary,
        }
    }
}

} // verus!
