//! The hybrid of gated delta layers and gated attention: chunks, spans that
//! replay as one graph, halves for two cards, and buffer sizes.

use vstd::prelude::*;

use crate::floats;
use crate::graph::{Buf, Part};
use crate::scratch;
use crate::shape::Shape;
use crate::text;

verus! {

/// Most tokens of one chunk, and most rows of one verification.
pub const T_MAX: usize = 16;

/// Why a batch is refused.
#[derive(Clone, Copy, Debug, PartialEq, Eq, Structural)]
pub enum HybridError {
    /// There are no tokens.
    Empty,
    /// More rows of logits are wanted than a chunk has.
    Rows,
    /// The batch reaches behind the context.
    Context,
    /// More rows of logits are wanted than the last chunk has.
    LastChunk,
    /// The layer has neither attention nor delta weights.
    NoMixer,
    /// The layer has no feed-forward part that this graph runs.
    NoFfn,
}

/// Tokens of the last chunk of `n`.
pub open spec fn last_chunk(n: int) -> int {
    (n - 1) % 16 + 1
}

/// What is refused before anything runs.
pub fn check_batch(n: usize, pos: u32, rows: u32, ctx: u32) -> (r: Option<HybridError>)
    requires
        pos + n <= u32::MAX,
    ensures
        r == if n == 0 {
            Some(HybridError::Empty)
        } else if rows > T_MAX {
            Some(HybridError::Rows)
        } else if pos + n > ctx {
            Some(HybridError::Context)
        } else {
            None
        },
{
    if n == 0 {
        Some(HybridError::Empty)
    } else if rows as usize > T_MAX {
        Some(HybridError::Rows)
    } else if pos as u64 + n as u64 > ctx as u64 {
        Some(HybridError::Context)
    } else {
        None
    }
}

/// After all chunks ran: the rows must come from the last one.
pub fn check_rows(n: usize, rows: u32) -> (r: Option<HybridError>)
    requires
        n > 0,
    ensures
        r == if rows > last_chunk(n as int) {
            Some(HybridError::LastChunk)
        } else {
            None
        },
{
    let last: usize = (n - 1) % T_MAX + 1;
    if rows as usize > last {
        Some(HybridError::LastChunk)
    } else {
        None
    }
}

/// A stretch of tokens or layers.
#[derive(Clone, Copy, Debug, PartialEq, Eq, Structural)]
pub struct Stretch {
    pub lo: usize,
    pub hi: usize,
}

/// The chunks of `n` tokens from `at` on.
pub open spec fn chunks_from(at: int, n: int) -> Seq<Stretch>
    decreases n - at,
{
    if at >= n {
        Seq::empty()
    } else {
        let end = if at + 16 <= n { at + 16 } else { n };
        seq![Stretch { lo: at as usize, hi: end as usize }] + chunks_from(end, n)
    }
}

/// The chunks of `n` tokens.
pub fn chunks(n: usize) -> (v: Vec<Stretch>)
    ensures
        v@ == chunks_from(0, n as int),
{
    let mut v: Vec<Stretch> = Vec::new();
    let mut at: usize = 0;
    assert(Seq::<Stretch>::empty() + chunks_from(0, n as int) =~= chunks_from(0, n as int));
    while at < n
        invariant
            at <= n,
            v@ + chunks_from(at as int, n as int) == chunks_from(0, n as int),
        decreases n - at,
    {
        let end: usize = if n - at >= T_MAX {
            at + T_MAX
        } else {
            n
        };
        let ghost was = v@;
        v.push(Stretch { lo: at, hi: end });
        assert(v@ + chunks_from(end as int, n as int) =~= was + chunks_from(at as int, n as int));
        at = end;
    }
    assert(v@ + Seq::<Stretch>::empty() =~= v@);
    v
}

/// Stretches follow each other from `lo` to `hi`, none empty.
pub open spec fn covers(v: Seq<Stretch>, lo: int, hi: int) -> bool {
    &&& v.len() == 0 ==> lo >= hi
    &&& v.len() > 0 ==> v[0].lo == lo && v.last().hi == hi
    &&& forall|i: int| 0 <= i < v.len() ==> (#[trigger] v[i]).lo < v[i].hi
    &&& forall|i: int| 0 < i < v.len() ==> (#[trigger] v[i]).lo == v[i - 1].hi
}

proof fn lemma_cons_covers(first: Stretch, rest: Seq<Stretch>, lo: int, mid: int, hi: int)
    requires
        first.lo == lo,
        first.hi == mid,
        lo < mid <= hi,
        covers(rest, mid, hi),
    ensures
        covers(seq![first] + rest, lo, hi),
{
    let v = seq![first] + rest;
    assert(v[0] == first);
    assert forall|i: int| 0 <= i < v.len() implies (#[trigger] v[i]).lo < v[i].hi by {
        if i > 0 {
            assert(v[i] == rest[i - 1]);
        }
    }
    assert forall|i: int| 0 < i < v.len() implies (#[trigger] v[i]).lo == v[i - 1].hi by {
        assert(v[i] == rest[i - 1]);
        if i > 1 {
            assert(v[i - 1] == rest[i - 2]);
        }
    }
    if rest.len() > 0 {
        assert(v.last() == rest.last());
    }
}

/// The chunks take every token once, in order, and none is longer than a
/// chunk may be.
pub proof fn chunks_cover_the_batch(at: int, n: int)
    requires
        0 <= at <= n,
        n <= usize::MAX,
    ensures
        covers(chunks_from(at, n), at, n),
        forall|i: int|
            0 <= i < chunks_from(at, n).len() ==> (#[trigger] chunks_from(at, n)[i]).hi
                - chunks_from(at, n)[i].lo <= 16,
    decreases n - at,
{
    if at < n {
        let end = if at + 16 <= n { at + 16 } else { n };
        chunks_cover_the_batch(end, n);
        let first = Stretch { lo: at as usize, hi: end as usize };
        lemma_cons_covers(first, chunks_from(end, n), at, end, n);
        assert forall|i: int| 0 <= i < chunks_from(at, n).len() implies (#[trigger] chunks_from(
            at,
            n,
        )[i]).hi - chunks_from(at, n)[i].lo <= 16 by {
            if i > 0 {
                assert(chunks_from(at, n)[i] == chunks_from(end, n)[i - 1]);
            }
        }
    }
}

/// What decides whether a layer can replay inside a graph.
#[derive(Clone, Copy, Debug, PartialEq, Eq, Structural)]
pub struct GraphFacts {
    /// Drafting captures rows while layers run.
    pub drafting: bool,
    /// The feed-forward part is resident.
    pub resident_ffn: bool,
    pub has_gdn: bool,
    pub has_attn: bool,
    /// The layer's attention is halved over two cards.
    pub split_attn: bool,
    pub two_cards: bool,
    pub ctx: u32,
    /// The key/value cache is exact.
    pub exact_kv: bool,
}

/// The position can be read on the device: a short context, an exact cache.
pub open spec fn pos_on_device(ctx: u32, exact_kv: bool) -> bool {
    ctx <= 4096 && exact_kv
}

/// A layer can replay inside a graph.
pub open spec fn is_graphable(f: GraphFacts) -> bool {
    !f.drafting && f.resident_ffn && if f.has_gdn {
        true
    } else {
        f.has_attn && f.two_cards && pos_on_device(f.ctx, f.exact_kv) && f.split_attn
    }
}

/// A layer can replay inside a graph.
pub fn graphable(f: GraphFacts) -> (r: bool)
    ensures
        r == is_graphable(f),
{
    !f.drafting && f.resident_ffn && if f.has_gdn {
        true
    } else {
        f.has_attn && f.two_cards && f.ctx <= 4096 && f.exact_kv && f.split_attn
    }
}

/// Layers that run together: as one graph, or a lone layer launched plainly.
#[derive(Clone, Copy, Debug, PartialEq, Eq, Structural)]
pub struct Launch {
    pub span: Stretch,
    pub graph: bool,
}

/// End of the run of graphable layers that goes on at `i`.
pub open spec fn graph_end(ok: Seq<bool>, i: int, hi: int) -> int
    decreases hi - i,
{
    if i < hi && ok[i] {
        graph_end(ok, i + 1, hi)
    } else {
        i
    }
}

pub proof fn lemma_graph_end(ok: Seq<bool>, i: int, hi: int)
    requires
        i <= hi,
    ensures
        i <= graph_end(ok, i, hi) <= hi,
        forall|k: int| i <= k < graph_end(ok, i, hi) ==> #[trigger] ok[k],
    decreases hi - i,
{
    if i < hi && ok[i] {
        lemma_graph_end(ok, i + 1, hi);
    }
}

/// The launches of layers `il..hi`.
pub open spec fn launches_from(ok: Seq<bool>, on: bool, il: int, hi: int) -> Seq<Launch>
    decreases hi - il,
{
    proof {
        if il < hi {
            lemma_graph_end(ok, il + 1, hi);
        }
    }
    if il >= hi {
        Seq::empty()
    } else if on && ok[il] {
        let end = graph_end(ok, il + 1, hi);
        seq![
            Launch { span: Stretch { lo: il as usize, hi: end as usize }, graph: true },
        ] + launches_from(ok, on, end, hi)
    } else {
        seq![
            Launch { span: Stretch { lo: il as usize, hi: (il + 1) as usize }, graph: false },
        ] + launches_from(ok, on, il + 1, hi)
    }
}

/// The launches of layers `lo..hi`: longest runs of graphable layers as one
/// graph each, the others alone. `ok` tells which layers are graphable.
pub fn launches(ok: &Vec<bool>, on: bool, lo: usize, hi: usize) -> (v: Vec<Launch>)
    requires
        lo <= hi <= ok@.len(),
    ensures
        v@ == launches_from(ok@, on, lo as int, hi as int),
{
    let mut v: Vec<Launch> = Vec::new();
    let mut il: usize = lo;
    let ghost all = launches_from(ok@, on, lo as int, hi as int);
    assert(Seq::<Launch>::empty() + all =~= all);
    while il < hi
        invariant
            lo <= il <= hi <= ok@.len(),
            all == launches_from(ok@, on, lo as int, hi as int),
            v@ + launches_from(ok@, on, il as int, hi as int) == all,
        decreases hi - il,
    {
        let ghost was = v@;
        let ghost i0 = il as int;
        let graph: bool = on && ok[il];
        let mut end: usize = il + 1;
        if graph {
            while end < hi && ok[end]
                invariant
                    il < end <= hi <= ok@.len(),
                    graph_end(ok@, il + 1, hi as int) == graph_end(ok@, end as int, hi as int),
                decreases hi - end,
            {
                end = end + 1;
            }
        }
        v.push(Launch { span: Stretch { lo: il, hi: end }, graph });
        assert(v@ + launches_from(ok@, on, end as int, hi as int) =~= was + launches_from(
            ok@,
            on,
            i0,
            hi as int,
        ));
        il = end;
    }
    assert(v@ + Seq::<Launch>::empty() =~= v@);
    v
}

pub open spec fn launch_spans(v: Seq<Launch>) -> Seq<Stretch> {
    Seq::new(v.len(), |i: int| v[i].span)
}

/// Every layer of the stretch is graphable.
pub open spec fn all_ok(ok: Seq<bool>, s: Stretch) -> bool {
    forall|k: int| s.lo <= k < s.hi ==> #[trigger] ok[k]
}

/// Every layer is launched once, in order; a graph holds graphable layers
/// only.
pub proof fn launches_cover_the_layers(ok: Seq<bool>, on: bool, il: int, hi: int)
    requires
        0 <= il <= hi <= ok.len(),
        hi <= usize::MAX,
    ensures
        covers(launch_spans(launches_from(ok, on, il, hi)), il, hi),
        forall|i: int|
            0 <= i < launches_from(ok, on, il, hi).len() && (#[trigger] launches_from(
                ok,
                on,
                il,
                hi,
            )[i]).graph ==> on && all_ok(ok, launches_from(ok, on, il, hi)[i].span),
    decreases hi - il,
{
    if il < hi {
        lemma_graph_end(ok, il + 1, hi);
        let graph = on && ok[il];
        let end = if graph { graph_end(ok, il + 1, hi) } else { il + 1 };
        launches_cover_the_layers(ok, on, end, hi);
        let rest = launches_from(ok, on, end, hi);
        let first = Launch { span: Stretch { lo: il as usize, hi: end as usize }, graph };
        let all = seq![first] + rest;
        assert(launches_from(ok, on, il, hi) == all);
        assert(launch_spans(all) =~= seq![first.span] + launch_spans(rest));
        lemma_cons_covers(first.span, launch_spans(rest), il, end, hi);
        assert forall|i: int| 0 <= i < all.len() && (#[trigger] all[i]).graph implies on && all_ok(
            ok,
            all[i].span,
        ) by {
            if i > 0 {
                assert(all[i] == rest[i - 1]);
            } else {
                assert(all[0] == first);
            }
        }
    }
}

/// First layer that another card than the primary owns.
pub open spec fn first_off(devs: Seq<i32>, primary: i32, n: int) -> Option<int>
    decreases n,
{
    if n <= 0 {
        None
    } else {
        match first_off(devs, primary, n - 1) {
            Some(i) => Some(i),
            None => if devs[n - 1] != primary { Some(n - 1) } else { None },
        }
    }
}

proof fn lemma_first_off(devs: Seq<i32>, primary: i32, a: int, b: int)
    requires
        a <= b,
        first_off(devs, primary, a) is Some,
    ensures
        first_off(devs, primary, b) == first_off(devs, primary, a),
    decreases b,
{
    if a < b {
        lemma_first_off(devs, primary, a, b - 1);
    }
}

/// First layer that another card than the primary owns, and that card.
pub fn second_bank(devs: &Vec<i32>, primary: i32) -> (r: Option<(usize, i32)>)
    ensures
        match r {
            Some((i, d)) => first_off(devs@, primary, devs@.len() as int) == Some(i as int) && i
                < devs@.len() && d == devs@[i as int],
            None => first_off(devs@, primary, devs@.len() as int) is None,
        },
{
    let mut i: usize = 0;
    while i < devs.len()
        invariant
            i <= devs@.len(),
            first_off(devs@, primary, i as int) is None,
        decreases devs@.len() - i,
    {
        if devs[i] != primary {
            proof {
                lemma_first_off(devs@, primary, i + 1, devs@.len() as int);
            }
            return Some((i, devs[i]));
        }
        i = i + 1;
    }
    None
}

/// One step of a chunk through the layers.
#[derive(Clone, Copy, Debug, PartialEq, Eq, Structural)]
pub enum ChunkStep {
    /// Run layers `lo..hi` on the card in use.
    Span { lo: usize, hi: usize },
    /// Move the residual stream to this card, and go on there.
    Hop { from: i32, to: i32 },
}

/// The steps of a chunk through `n` layers, the second card's from `first`
/// on.
pub open spec fn steps_of(second: Option<(usize, i32)>, primary: i32, n: usize) -> Seq<ChunkStep> {
    match second {
        None => seq![ChunkStep::Span { lo: 0, hi: n }],
        Some((first, dev)) => seq![
            ChunkStep::Span { lo: 0, hi: first },
            ChunkStep::Hop { from: primary, to: dev },
            ChunkStep::Span { lo: first, hi: n },
            ChunkStep::Hop { from: dev, to: primary },
        ],
    }
}

/// The steps of a chunk through `n` layers.
pub fn chunk_steps(second: Option<(usize, i32)>, primary: i32, n: usize) -> (v: Vec<ChunkStep>)
    ensures
        v@ == steps_of(second, primary, n),
{
    let mut v: Vec<ChunkStep> = Vec::new();
    match second {
        None => {
            v.push(ChunkStep::Span { lo: 0, hi: n });
        },
        Some((first, dev)) => {
            v.push(ChunkStep::Span { lo: 0, hi: first });
            v.push(ChunkStep::Hop { from: primary, to: dev });
            v.push(ChunkStep::Span { lo: first, hi: n });
            v.push(ChunkStep::Hop { from: dev, to: primary });
        },
    }
    assert(v@ =~= steps_of(second, primary, n));
    v
}

/// Card in use before step `k`.
pub open spec fn card_before(steps: Seq<ChunkStep>, primary: i32, k: int) -> i32
    decreases k,
{
    if k <= 0 {
        primary
    } else {
        match steps[k - 1] {
            ChunkStep::Hop { from, to } => to,
            ChunkStep::Span { lo, hi } => card_before(steps, primary, k - 1),
        }
    }
}

/// Layer `il` is run at step `k`.
pub open spec fn runs_layer(steps: Seq<ChunkStep>, k: int, il: int) -> bool {
    steps[k] matches ChunkStep::Span { lo, hi } && lo <= il < hi
}

/// Layer `il` is run at some step.
pub open spec fn is_run(steps: Seq<ChunkStep>, il: int) -> bool {
    exists|k: int| 0 <= k < steps.len() && #[trigger] runs_layer(steps, k, il)
}

/// Number of hops among the first `n` steps.
pub open spec fn hops(steps: Seq<ChunkStep>, n: int) -> nat
    decreases n,
{
    if n <= 0 {
        0
    } else {
        hops(steps, n - 1) + if steps[n - 1] is Hop { 1nat } else { 0nat }
    }
}

/// With the layers split contiguously, every layer is run once, on the card
/// that owns it, and the residual stream crosses cards exactly twice, or not
/// at all where there is one card; it ends where it started.
pub proof fn residual_crosses_twice(devs: Seq<i32>, primary: i32)
    requires
        devs.len() <= usize::MAX,
        first_off(devs, primary, devs.len() as int) matches Some(f) ==> forall|i: int|
            f <= i < devs.len() ==> #[trigger] devs[i] == devs[f],
    ensures
        ({
            let second = match first_off(devs, primary, devs.len() as int) {
                Some(f) => Some((f as usize, devs[f])),
                None => None,
            };
            let s = steps_of(second, primary, devs.len() as usize);
            &&& hops(s, s.len() as int) == if second is Some { 2nat } else { 0nat }
            &&& card_before(s, primary, s.len() as int) == primary
            &&& forall|il: int| 0 <= il < devs.len() ==> #[trigger] is_run(s, il)
            &&& forall|il: int, k: int|
                0 <= il < devs.len() && 0 <= k < s.len() && #[trigger] runs_layer(s, k, il)
                    ==> card_before(s, primary, k) == devs[il]
            &&& forall|il: int, j: int, k: int|
                0 <= j < s.len() && 0 <= k < s.len() && #[trigger] runs_layer(s, j, il)
                    && #[trigger] runs_layer(s, k, il) ==> j == k
        }),
{
    let n = devs.len() as int;
    lemma_first_off_is_first(devs, primary, n);
    reveal_with_fuel(hops, 5);
    reveal_with_fuel(card_before, 5);
    match first_off(devs, primary, n) {
        None => {
            let s = steps_of(None, primary, devs.len() as usize);
            assert forall|il: int| 0 <= il < devs.len() implies #[trigger] is_run(s, il) by {
                assert(runs_layer(s, 0, il));
            }
        },
        Some(f) => {
            let s = steps_of(Some((f as usize, devs[f])), primary, devs.len() as usize);
            assert forall|il: int| 0 <= il < devs.len() implies #[trigger] is_run(s, il) by {
                if il < f {
                    assert(runs_layer(s, 0, il));
                } else {
                    assert(runs_layer(s, 2, il));
                }
            }
            assert forall|il: int, k: int|
                0 <= il < devs.len() && 0 <= k < s.len() && #[trigger] runs_layer(
                    s,
                    k,
                    il,
                ) implies card_before(s, primary, k) == devs[il] by {
                assert(k == 0 || k == 2);
            }
        },
    }
}

proof fn lemma_first_off_is_first(devs: Seq<i32>, primary: i32, n: int)
    requires
        0 <= n <= devs.len(),
    ensures
        match first_off(devs, primary, n) {
            Some(f) => 0 <= f < n && devs[f] != primary && forall|i: int|
                0 <= i < f ==> #[trigger] devs[i] == primary,
            None => forall|i: int| 0 <= i < n ==> #[trigger] devs[i] == primary,
        },
    decreases n,
{
    if n > 0 {
        lemma_first_off_is_first(devs, primary, n - 1);
    }
}

/// Widths of the delta layers.
#[derive(Clone, Copy, Debug, PartialEq, Eq, Structural)]
pub struct GdnDims {
    pub k_heads: u32,
    pub v_heads: u32,
    pub key: u32,
    pub value: u32,
    /// Query, key and value side by side.
    pub conv: u32,
}

/// Widths for these head counts fit 32 bits.
pub open spec fn gdn_fits(k_heads: int, v_heads: int, state: int) -> bool {
    2 * (k_heads * state) + v_heads * state <= u32::MAX
}

fn dims_for(k_heads: u32, v_heads: u32, state: u32) -> (d: GdnDims)
    requires
        gdn_fits(k_heads as int, v_heads as int, state as int),
    ensures
        d.k_heads == k_heads,
        d.v_heads == v_heads,
        d.key == k_heads * state,
        d.value == v_heads * state,
        d.conv == 2 * (k_heads * state) + v_heads * state,
{
    proof {
        assert(0 <= k_heads * state) by (nonlinear_arith);
        assert(0 <= v_heads * state) by (nonlinear_arith);
    }
    let key: u32 = k_heads * state;
    let value: u32 = v_heads * state;
    GdnDims { k_heads, v_heads, key, value, conv: 2 * key + value }
}

/// Widths of the delta layers: of a whole layer, or of one of two halves.
pub fn gdn_dims(s: &Shape, halved: bool) -> (d: GdnDims)
    requires
        gdn_fits(s.ssm_k_heads as int, s.ssm_v_heads as int, s.ssm_state as int),
    ensures
        d.k_heads == if halved {
            s.ssm_k_heads / 2
        } else {
            s.ssm_k_heads
        },
        d.v_heads == if halved {
            s.ssm_v_heads / 2
        } else {
            s.ssm_v_heads
        },
        d.key == d.k_heads * s.ssm_state,
        d.value == d.v_heads * s.ssm_state,
        d.conv == 2 * d.key + d.value,
{
    if halved {
        let k: u32 = s.ssm_k_heads / 2;
        let v: u32 = s.ssm_v_heads / 2;
        proof {
            assert(0 <= k * s.ssm_state <= s.ssm_k_heads * s.ssm_state) by (nonlinear_arith)
                requires
                    0 <= k <= s.ssm_k_heads,
            ;
            assert(0 <= v * s.ssm_state <= s.ssm_v_heads * s.ssm_state) by (nonlinear_arith)
                requires
                    0 <= v <= s.ssm_v_heads,
            ;
        }
        dims_for(k, v, s.ssm_state)
    } else {
        dims_for(s.ssm_k_heads, s.ssm_v_heads, s.ssm_state)
    }
}

/// A layer keeps a rolling state: all but every `interval`-th do.
pub fn has_state(s: &Shape, il: u32) -> (r: bool)
    requires
        s.full_attn_interval > 0,
        il < u32::MAX,
    ensures
        r == ((il + 1) % s.full_attn_interval as int != 0),
{
    (il + 1) % s.full_attn_interval != 0
}

/// Buffers of the hybrid graph. Those of one size share a name.
#[derive(Clone, Copy, Debug, PartialEq, Eq, Structural)]
pub enum HybridBuffer {
    /// Projected or convolved rows.
    Conv,
    /// Delta queries, or keys.
    Keys,
    /// Delta values, outputs, or the output gate's input.
    Values,
    /// One coefficient per value head.
    Coeffs,
    /// Both coefficients of one row.
    Packed,
    /// Query heads, with their gate beside them.
    QueryGate,
    /// Query heads, or their gates alone.
    Heads,
    /// Key heads, or value heads.
    KvHeads,
    /// Rows of the stream.
    Row,
    /// Rows inside the feed-forward part.
    Inner,
    /// One number per row.
    Scalar,
    /// The delta state of one layer.
    State,
    /// The convolution window of one layer.
    Window,
}

/// Elements of a row inside the feed-forward part.
pub open spec fn inner_width(s: &Shape) -> int {
    if s.n_ff_exp >= s.n_ff_dense {
        s.n_ff_exp as int
    } else {
        s.n_ff_dense as int
    }
}

/// Elements of a buffer.
pub open spec fn hybrid_elems(s: &Shape, d: &GdnDims, b: HybridBuffer) -> int {
    match b {
        HybridBuffer::Conv => 16 * d.conv,
        HybridBuffer::Keys => 16 * d.key,
        HybridBuffer::Values => 16 * d.value,
        HybridBuffer::Coeffs => 16 * d.v_heads,
        HybridBuffer::Packed => 2 * d.v_heads,
        HybridBuffer::QueryGate => 16 * (2 * (s.n_head * s.head_dim)),
        HybridBuffer::Heads => 16 * (s.n_head * s.head_dim),
        HybridBuffer::KvHeads => 16 * (s.n_head_kv * s.head_dim),
        HybridBuffer::Row => 16 * s.n_embd,
        HybridBuffer::Inner => 16 * inner_width(s),
        HybridBuffer::Scalar => 16,
        HybridBuffer::State => d.v_heads * s.ssm_state * s.ssm_state,
        HybridBuffer::Window => (s.ssm_conv_k - 1) * d.conv,
    }
}

/// Bytes of a buffer, four per element; `None` when they have no size in
/// memory.
pub fn hybrid_bytes(s: &Shape, d: &GdnDims, b: HybridBuffer) -> (r: Option<usize>)
    requires
        s.ssm_conv_k >= 1,
    ensures
        match r {
            Some(n) => n == 4 * hybrid_elems(s, d, b),
            None => 4 * hybrid_elems(s, d, b) > usize::MAX,
        },
{
    proof {
        assert(0 <= s.n_head * s.head_dim <= 0xffff_ffff * 0xffff_ffff) by (nonlinear_arith)
            requires
                s.n_head <= 0xffff_ffff,
                s.head_dim <= 0xffff_ffff,
        ;
        assert(0 <= s.n_head_kv * s.head_dim <= 0xffff_ffff * 0xffff_ffff) by (nonlinear_arith)
            requires
                s.n_head_kv <= 0xffff_ffff,
                s.head_dim <= 0xffff_ffff,
        ;
        assert(0 <= d.v_heads * s.ssm_state <= 0xffff_ffff * 0xffff_ffff) by (nonlinear_arith)
            requires
                d.v_heads <= 0xffff_ffff,
                s.ssm_state <= 0xffff_ffff,
        ;
        assert(0 <= d.v_heads * s.ssm_state * s.ssm_state <= 0xffff_ffff * 0xffff_ffff
            * 0xffff_ffff) by (nonlinear_arith)
            requires
                0 <= d.v_heads * s.ssm_state <= 0xffff_ffff * 0xffff_ffff,
                s.ssm_state <= 0xffff_ffff,
        ;
        assert(0 <= (s.ssm_conv_k - 1) * d.conv <= 0xffff_ffff * 0xffff_ffff) by (nonlinear_arith)
            requires
                0 <= s.ssm_conv_k - 1 <= 0xffff_ffff,
                d.conv <= 0xffff_ffff,
        ;
    }
    let qk: u128 = s.n_head as u128 * s.head_dim as u128;
    let n: u128 = match b {
        HybridBuffer::Conv => 16 * d.conv as u128,
        HybridBuffer::Keys => 16 * d.key as u128,
        HybridBuffer::Values => 16 * d.value as u128,
        HybridBuffer::Coeffs => 16 * d.v_heads as u128,
        HybridBuffer::Packed => 2 * d.v_heads as u128,
        HybridBuffer::QueryGate => 16 * (2 * qk),
        HybridBuffer::Heads => 16 * qk,
        HybridBuffer::KvHeads => 16 * (s.n_head_kv as u128 * s.head_dim as u128),
        HybridBuffer::Row => 16 * s.n_embd as u128,
        HybridBuffer::Inner => 16 * (if s.n_ff_exp >= s.n_ff_dense {
            s.n_ff_exp
        } else {
            s.n_ff_dense
        }) as u128,
        HybridBuffer::Scalar => 16,
        HybridBuffer::State => d.v_heads as u128 * s.ssm_state as u128 * s.ssm_state as u128,
        HybridBuffer::Window => (s.ssm_conv_k - 1) as u128 * d.conv as u128,
    };
    if 4 * n <= usize::MAX as u128 {
        Some((4 * n) as usize)
    } else {
        None
    }
}

/// The buffers of a card's layers, and what each holds.
pub open spec fn bank_table() -> Seq<(Buf, HybridBuffer)> {
    seq![
        (Buf::Cur, HybridBuffer::Row),
        (Buf::AfterAttn, HybridBuffer::Row),
        (Buf::FfnOut, HybridBuffer::Row),
        (Buf::GateAct, HybridBuffer::Inner),
        (Buf::UpAct, HybridBuffer::Inner),
        (Buf::FfnMid, HybridBuffer::Inner),
        (Buf::Half(false, Part::In), HybridBuffer::Row),
        (Buf::Half(false, Part::Out), HybridBuffer::Row),
        (Buf::Half(false, Part::Q), HybridBuffer::Heads),
        (Buf::Half(false, Part::K), HybridBuffer::KvHeads),
        (Buf::Half(false, Part::V), HybridBuffer::KvHeads),
        (Buf::Half(false, Part::RotQ), HybridBuffer::Heads),
        (Buf::Half(false, Part::RotK), HybridBuffer::KvHeads),
        (Buf::Half(false, Part::Heads), HybridBuffer::Heads),
        (Buf::Half(false, Part::GateAct), HybridBuffer::Inner),
        (Buf::Half(false, Part::UpAct), HybridBuffer::Inner),
        (Buf::Half(false, Part::Mid), HybridBuffer::Inner),
        (Buf::Half(false, Part::FfnOut), HybridBuffer::Row),
        (Buf::Half(false, Part::Qkv), HybridBuffer::Conv),
        (Buf::Half(false, Part::ConvOut), HybridBuffer::Conv),
        (Buf::Half(false, Part::Z), HybridBuffer::Values),
        (Buf::Half(false, Part::Gq), HybridBuffer::Keys),
        (Buf::Half(false, Part::Gk), HybridBuffer::Keys),
        (Buf::Half(false, Part::Gv), HybridBuffer::Values),
        (Buf::Half(false, Part::Decay), HybridBuffer::Coeffs),
        (Buf::Half(false, Part::Beta), HybridBuffer::Coeffs),
        (Buf::Half(false, Part::Packed), HybridBuffer::Packed),
        (Buf::Half(false, Part::Delta), HybridBuffer::Values),
        (Buf::Half(false, Part::Mixed), HybridBuffer::Values),
        (Buf::Half(false, Part::QueryGate), HybridBuffer::QueryGate),
        (Buf::Half(false, Part::Gate), HybridBuffer::Heads),
    ]
}

/// The buffers of a card's layers, and what each holds.
pub fn bank_buffers() -> (v: Vec<(Buf, HybridBuffer)>)
    ensures
        v@ == bank_table(),
{
    let mut v: Vec<(Buf, HybridBuffer)> = Vec::new();
    v.push((Buf::Cur, HybridBuffer::Row));
    v.push((Buf::AfterAttn, HybridBuffer::Row));
    v.push((Buf::FfnOut, HybridBuffer::Row));
    v.push((Buf::GateAct, HybridBuffer::Inner));
    v.push((Buf::UpAct, HybridBuffer::Inner));
    v.push((Buf::FfnMid, HybridBuffer::Inner));
    v.push((Buf::Half(false, Part::In), HybridBuffer::Row));
    v.push((Buf::Half(false, Part::Out), HybridBuffer::Row));
    v.push((Buf::Half(false, Part::Q), HybridBuffer::Heads));
    v.push((Buf::Half(false, Part::K), HybridBuffer::KvHeads));
    v.push((Buf::Half(false, Part::V), HybridBuffer::KvHeads));
    v.push((Buf::Half(false, Part::RotQ), HybridBuffer::Heads));
    v.push((Buf::Half(false, Part::RotK), HybridBuffer::KvHeads));
    v.push((Buf::Half(false, Part::Heads), HybridBuffer::Heads));
    v.push((Buf::Half(false, Part::GateAct), HybridBuffer::Inner));
    v.push((Buf::Half(false, Part::UpAct), HybridBuffer::Inner));
    v.push((Buf::Half(false, Part::Mid), HybridBuffer::Inner));
    v.push((Buf::Half(false, Part::FfnOut), HybridBuffer::Row));
    v.push((Buf::Half(false, Part::Qkv), HybridBuffer::Conv));
    v.push((Buf::Half(false, Part::ConvOut), HybridBuffer::Conv));
    v.push((Buf::Half(false, Part::Z), HybridBuffer::Values));
    v.push((Buf::Half(false, Part::Gq), HybridBuffer::Keys));
    v.push((Buf::Half(false, Part::Gk), HybridBuffer::Keys));
    v.push((Buf::Half(false, Part::Gv), HybridBuffer::Values));
    v.push((Buf::Half(false, Part::Decay), HybridBuffer::Coeffs));
    v.push((Buf::Half(false, Part::Beta), HybridBuffer::Coeffs));
    v.push((Buf::Half(false, Part::Packed), HybridBuffer::Packed));
    v.push((Buf::Half(false, Part::Delta), HybridBuffer::Values));
    v.push((Buf::Half(false, Part::Mixed), HybridBuffer::Values));
    v.push((Buf::Half(false, Part::QueryGate), HybridBuffer::QueryGate));
    v.push((Buf::Half(false, Part::Gate), HybridBuffer::Heads));
    assert(v@ =~= bank_table());
    v
}

/// Elements of the widest row that is quantized: of the stream, or of
/// whatever reads `middle` rows.
pub open spec fn block_width(s: &Shape, d: &GdnDims, middle: bool) -> int {
    if !middle {
        s.n_embd as int
    } else {
        let heads = s.n_head * s.head_dim;
        let most = if inner_width(s) >= heads {
            inner_width(s)
        } else {
            heads
        };
        if most >= d.value {
            most
        } else {
            d.value as int
        }
    }
}

/// Bytes of a chunk's rows in quantized blocks, of `bytes` bytes per `per`
/// elements; `None` when they have no size in memory.
pub fn block_rows_bytes(s: &Shape, d: &GdnDims, middle: bool, per: u32, bytes: u32) -> (r: Option<usize>)
    requires
        per > 0,
    ensures
        ({
            let n = 16 * (scratch::blocks_for(block_width(s, d, middle), per as int) * bytes);
            match r {
                Some(k) => k == n,
                None => n > usize::MAX,
            }
        }),
{
    proof {
        assert(0 <= s.n_head * s.head_dim <= 0xffff_ffff * 0xffff_ffff) by (nonlinear_arith)
            requires
                s.n_head <= 0xffff_ffff,
                s.head_dim <= 0xffff_ffff,
        ;
    }
    let heads: u128 = s.n_head as u128 * s.head_dim as u128;
    let inner: u128 = (if s.n_ff_exp >= s.n_ff_dense {
        s.n_ff_exp
    } else {
        s.n_ff_dense
    }) as u128;
    let width: u128 = if !middle {
        s.n_embd as u128
    } else {
        let most: u128 = if inner >= heads {
            inner
        } else {
            heads
        };
        if most >= d.value as u128 {
            most
        } else {
            d.value as u128
        }
    };
    assert(width == block_width(s, d, middle));
    let blocks: u128 = (width + per as u128 - 1) / per as u128;
    proof {
        assert(0 <= blocks <= width + per - 1) by (nonlinear_arith)
            requires
                0 < per,
                0 <= width,
                blocks == (width + per - 1) / per as int,
        ;
        assert(0 <= blocks * bytes <= 0x1_0000_0000_0000_0000 * 0xffff_ffff) by (nonlinear_arith)
            requires
                0 <= blocks <= 0x1_0000_0000_0000_0000,
                bytes <= 0xffff_ffff,
        ;
    }
    let n: u128 = 16 * (blocks * bytes as u128);
    if n <= usize::MAX as u128 {
        Some(n as usize)
    } else {
        None
    }
}

/// How the mixing half of a layer runs.
#[derive(Clone, Copy, Debug, PartialEq, Eq, Structural)]
pub enum Mixer {
    /// Delta rule; both coefficients in one product for a lone token of a
    /// halved layer.
    Gdn { halved: bool, packed: bool },
    /// Gated attention over these heads; the position is read on the device
    /// or given.
    Attn { halved: bool, n_head: u32, n_head_kv: u32, device_pos: bool, rotate: bool },
}

/// How the feed-forward half of a layer runs.
#[derive(Clone, Copy, Debug, PartialEq, Eq, Structural)]
pub enum HybridFfn {
    Dense,
    /// Dense, half of it on each of two cards.
    Halved,
    /// Routed experts, with the always-on expert or not.
    Experts { shared: bool },
}

/// What decides how a layer runs.
#[derive(Clone, Copy, Debug, PartialEq, Eq, Structural)]
pub struct HybridFacts {
    pub has_gdn: bool,
    pub has_attn: bool,
    /// The second card holds a half of this layer's mixer.
    pub half_mixer: bool,
    pub resident_ffn: bool,
    /// The second card holds a half of this layer's feed-forward part.
    pub half_ffn: bool,
    pub has_experts: bool,
    pub shared_expert: bool,
    /// Tokens of the chunk.
    pub t: u32,
    pub ctx: u32,
    pub exact_kv: bool,
    pub rotate: bool,
}

/// How a layer runs, or why it cannot.
pub open spec fn layer_graph(s: &Shape, f: HybridFacts) -> Result<(Mixer, HybridFfn), HybridError> {
    let mixer = if f.has_gdn {
        Some(Mixer::Gdn { halved: f.half_mixer, packed: f.half_mixer && f.t == 1 })
    } else if f.has_attn {
        Some(
            if f.half_mixer {
                Mixer::Attn {
                    halved: true,
                    n_head: s.n_head / 2,
                    n_head_kv: s.n_head_kv / 2,
                    device_pos: pos_on_device(f.ctx, f.exact_kv),
                    rotate: false,
                }
            } else {
                Mixer::Attn {
                    halved: false,
                    n_head: s.n_head,
                    n_head_kv: s.n_head_kv,
                    device_pos: false,
                    rotate: f.rotate,
                }
            },
        )
    } else {
        None
    };
    match mixer {
        None => Err(HybridError::NoMixer),
        Some(m) => if f.resident_ffn {
            Ok((m, if f.half_ffn { HybridFfn::Halved } else { HybridFfn::Dense }))
        } else if f.has_experts {
            Ok((m, HybridFfn::Experts { shared: f.shared_expert }))
        } else {
            Err(HybridError::NoFfn)
        },
    }
}

/// How a layer runs, or why it cannot.
pub fn plan_hybrid(s: &Shape, f: HybridFacts) -> (r: Result<(Mixer, HybridFfn), HybridError>)
    ensures
        r == layer_graph(s, f),
{
    let mixer: Mixer = if f.has_gdn {
        Mixer::Gdn { halved: f.half_mixer, packed: f.half_mixer && f.t == 1 }
    } else if f.has_attn {
        if f.half_mixer {
            Mixer::Attn {
                halved: true,
                n_head: s.n_head / 2,
                n_head_kv: s.n_head_kv / 2,
                device_pos: f.ctx <= 4096 && f.exact_kv,
                rotate: false,
            }
        } else {
            Mixer::Attn {
                halved: false,
                n_head: s.n_head,
                n_head_kv: s.n_head_kv,
                device_pos: false,
                rotate: f.rotate,
            }
        }
    } else {
        return Err(HybridError::NoMixer);
    };
    if f.resident_ffn {
        Ok(
            (
                mixer,
                if f.half_ffn {
                    HybridFfn::Halved
                } else {
                    HybridFfn::Dense
                },
            ),
        )
    } else if f.has_experts {
        Ok((mixer, HybridFfn::Experts { shared: f.shared_expert }))
    } else {
        Err(HybridError::NoFfn)
    }
}

/// The largest logit of a row, in float bits, and where it stands.
#[derive(Clone, Copy, Debug, PartialEq, Eq, Structural)]
pub struct Peak {
    pub bits: u32,
    pub at: u32,
}

/// The peak of a row from the peaks of its halves.
pub open spec fn merged(a: Peak, b: Peak, half: int) -> int {
    if floats::above(b.bits, a.bits) {
        b.at + half
    } else {
        a.at as int
    }
}

/// Greedy choices of rows whose vocabulary is halved over two cards.
pub fn merge_peaks(a: &Vec<Peak>, b: &Vec<Peak>, half: u32) -> (r: Vec<u32>)
    requires
        a@.len() == b@.len(),
        forall|i: int| 0 <= i < b@.len() ==> (#[trigger] b@[i]).at + half <= u32::MAX,
    ensures
        r@.len() == a@.len(),
        forall|i: int|
            0 <= i < a@.len() ==> #[trigger] r@[i] == merged(a@[i], b@[i], half as int),
{
    let mut r: Vec<u32> = Vec::new();
    let mut i: usize = 0;
    while i < a.len()
        invariant
            i <= a@.len(),
            a@.len() == b@.len(),
            forall|k: int| 0 <= k < b@.len() ==> (#[trigger] b@[k]).at + half <= u32::MAX,
            r@.len() == i,
            forall|k: int| 0 <= k < i ==> #[trigger] r@[k] == merged(a@[k], b@[k], half as int),
        decreases a@.len() - i,
    {
        assert(b@[i as int].at + half <= u32::MAX);
        if floats::greater(b[i].bits, a[i].bits) {
            r.push(b[i].at + half);
        } else {
            r.push(a[i].at);
        }
        i = i + 1;
    }
    r
}

/// Merging the choices of two halves gives the choice of one scan over the
/// whole row, where every logit is a number.
pub proof fn halves_agree_with_one_scan(v: Seq<u32>, half: int, n: int)
    requires
        1 <= half < n <= v.len(),
        n <= u32::MAX,
        forall|i: int| 0 <= i < n ==> !floats::is_nan(#[trigger] v[i]),
    ensures
        ({
            let a = floats::best(v, 0, half);
            let b = floats::best(v, half, n - half);
            let pa = Peak { bits: v[a], at: a as u32 };
            let pb = Peak { bits: v[half + b], at: b as u32 };
            merged(pa, pb, half) == floats::best(v, 0, n)
        }),
{
    let a = floats::best(v, 0, half);
    let b = floats::best(v, half, n - half);
    let w = floats::best(v, 0, n);
    floats::choice_is_first_largest(v, 0, half);
    floats::choice_is_first_largest(v, half, n - half);
    floats::choice_is_first_largest(v, 0, n);
    assert(v[0 + a] == v[a] && v[0 + w] == v[w] && v[0 + (half + b)] == v[half + b]);
    assert(floats::order(v[0 + a]) <= floats::order(v[w]));
    assert(floats::order(v[0 + (half + b)]) <= floats::order(v[w]));
    if w < half {
        assert(floats::order(v[0 + w]) <= floats::order(v[a]));
        if a < w {
            assert(floats::order(v[0 + a]) < floats::order(v[w]));
        }
        if w < a {
            assert(floats::order(v[0 + w]) < floats::order(v[a]));
        }
    } else {
        let k = w - half;
        assert(v[half + k] == v[w]);
        assert(floats::order(v[half + k]) <= floats::order(v[half + b]));
        if half + b < w {
            assert(floats::order(v[0 + (half + b)]) < floats::order(v[w]));
        }
        if k < b {
            assert(floats::order(v[half + k]) < floats::order(v[half + b]));
        }
        assert(floats::order(v[0 + a]) < floats::order(v[w]));
    }
}

/// Layers replay as graphs: not switched off, and some layer is resident.
pub fn graphs_on(setting: Option<&str>, resident: bool) -> (r: bool)
    ensures
        r == (resident && (setting matches Some(s) ==> s@ != "0"@)),
{
    match setting {
        Some(s) => resident && !text::same(s, "0"),
        None => resident,
    }
}

} // verus!
