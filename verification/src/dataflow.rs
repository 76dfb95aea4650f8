//! What a list of launches computes.
//!
//! Launches are run over symbolic rows: a value says which kernels made it,
//! by which weights, on which card, and from what. The laws here say what a
//! layer leaves in terms of what it found, whatever list of launches does it.

use vstd::prelude::*;

use crate::attn::{GqaPlan, Rotation, Rows};
use crate::graph;
use crate::graph::{
    AttnFacts,
    Buf,
    FfnFacts,
    LatentFacts,
    Op,
    Part,
    Place,
    Refs,
    Weight,
    Width,
};
use crate::shape::Shape;

verus! {

/// What a weight does to rows.
pub enum How {
    /// The norm of whole rows.
    Norm(Width),
    /// The norm of the stream's rows, in place.
    NormIn,
    /// The norm of each head.
    HeadNorm(Width),
    /// A product: so wide rows become so wide.
    Product { inner: Width, outer: Width },
    /// A product of so many parts of each row by float weights.
    Rows { from: u32, to: u32, rows: u32 },
    Bias(Width),
    /// A short convolution over its own rolling state.
    Filter { state: u32, width: Width },
}

/// Symbolic rows.
pub enum Val {
    Zeros,
    /// Rows of so many elements, brought over from another buffer.
    Moved { width: Width, x: Box<Val> },
    /// What the weight `w` made of `x` on the card `on`.
    By { on: Place, w: Weight, how: How, x: Box<Val> },
    /// The norm of each head, without a weight.
    UnitNormed { width: Width, x: Box<Val> },
    Turned { by: Rotation, width: Width, x: Box<Val> },
    TailTurned { x: Box<Val> },
    /// Attention of queries over cached keys and values.
    Attended { on: Place, q: Box<Val>, k: Box<Val>, v: Box<Val> },
    /// The same with a bias by relative position.
    AttendedNear { on: Place, q: Box<Val>, k: Box<Val>, v: Box<Val>, rel: Box<Val> },
    HeadGated { x: Box<Val>, gates: Box<Val> },
    LatentNormed { x: Box<Val> },
    /// A latent row: its normed part, and the raw row its tail comes from.
    Latent { norm: Box<Val>, raw: Box<Val> },
    AllRows { visible: u32 },
    IdxTurned { x: Box<Val> },
    Scores { batch: bool, visible: u32, q: Box<Val>, weights: Box<Val>, keys: Box<Val> },
    Top { batch: bool, visible: u32, topk: u32, x: Box<Val> },
    LowRank { on: Place, q: Box<Val> },
    AttendedLatent {
        on: Place,
        rows: u32,
        q: Box<Val>,
        low: Box<Val>,
        sel: Box<Val>,
        cache: Box<Val>,
    },
    Sum { a: Box<Val>, b: Box<Val> },
    Scaled { bits: u32, x: Box<Val> },
    /// The activation of `a`, times `b`.
    Gated { width: Width, a: Box<Val>, b: Box<Val> },
    /// The experts a router picks.
    Picked { logits: Box<Val> },
    /// The weights of those.
    PickWeights { logits: Box<Val> },
    /// Weights scaled by the picked experts' own scales.
    ScaledWeights { picks: Box<Val>, weights: Box<Val> },
    /// Rows in quantized blocks.
    Packed { width: Width, x: Box<Val> },
    /// Middle rows of the experts that `refs` names.
    Mid { on: Place, refs: Refs, grouped: bool, weights: Box<Val>, x: Box<Val> },
    /// The sum of their outputs.
    ExpertOut { on: Place, refs: Refs, x: Box<Val> },
    /// The output of each slot, over what lay there.
    SlotRows { on: Place, refs: Refs, over: Box<Val>, x: Box<Val> },
    SlotSum { x: Box<Val> },
    ExpertBiased { on: Place, refs: Refs, weights: Box<Val>, x: Box<Val> },
    /// The processor lanes' sum.
    Lanes,
    /// A coefficient of the delta rule, from both raw products.
    Coeff { second: bool, decay: Box<Val>, raw: Box<Val> },
    /// Both of a lone row.
    CoeffPair { x: Box<Val> },
    /// The convolution over the rolling window.
    Windowed { far: bool, x: Box<Val> },
    /// Queries, keys or values of convolved rows.
    Third { which: int, x: Box<Val> },
    UnitLength { width: Width, x: Box<Val> },
    /// The delta rule over the rolling state.
    Ruled { far: bool, q: Box<Val>, k: Box<Val>, v: Box<Val>, decay: Box<Val>, beta: Box<Val> },
    RuledPair { far: bool, q: Box<Val>, k: Box<Val>, v: Box<Val>, pair: Box<Val> },
    /// Queries, or their gates.
    Split { second: bool, x: Box<Val> },
    RowGated { x: Box<Val>, gate: Box<Val> },
    TurnedHalf { width: Width, on_card: bool, x: Box<Val> },
    /// A cached row, at the layer's position or at one that lies on the card.
    Cached { on_card: bool, x: Box<Val> },
    AttendedHalf { far: bool, on_card: bool, q: Box<Val>, k: Box<Val>, v: Box<Val> },
    Stashed { qkv: Box<Val>, decay: Box<Val>, beta: Box<Val> },
    SharedGated { x: Box<Val>, gate: Box<Val> },
    /// The routed experts' sum, resolved and run elsewhere.
    Routed { picks: Box<Val>, weights: Box<Val>, x: Box<Val> },
}

/// Where rows lie: in a buffer, or in something that outlives the layer.
pub enum Cell {
    At(Buf),
    Keys,
    Values,
    LatentRows,
    IdxKeys,
    /// What was read back for a comparison.
    Seen,
    HalfKeys(bool),
    HalfValues(bool),
    /// What a replay needs.
    Stash,
    /// The stream, kept for a draft.
    Ring(usize, bool),
}

/// Everything a launch can see: the rows, and the current card.
pub struct Mem {
    pub cells: Map<Cell, Val>,
    pub card: Place,
}

impl Mem {
    /// What a buffer holds.
    pub open spec fn at(self, b: Buf) -> Val {
        self.cells[Cell::At(b)]
    }

    pub open spec fn put(self, b: Buf, v: Val) -> Mem {
        Mem { cells: self.cells.insert(Cell::At(b), v), ..self }
    }

    pub open spec fn keep(self, c: Cell, v: Val) -> Mem {
        Mem { cells: self.cells.insert(c, v), ..self }
    }

    pub open spec fn made(self, dst: Buf, w: Weight, how: How, src: Buf) -> Mem {
        self.put(dst, applied(self.card, w, how, self.at(src)))
    }
}

pub open spec fn applied(on: Place, w: Weight, how: How, x: Val) -> Val {
    Val::By { on, w, how, x: Box::new(x) }
}

pub open spec fn sum(a: Val, b: Val) -> Val {
    Val::Sum { a: Box::new(a), b: Box::new(b) }
}

pub open spec fn packed(width: Width, x: Val) -> Val {
    Val::Packed { width, x: Box::new(x) }
}

pub open spec fn shifted(width: Width, x: Val) -> Val {
    Val::Moved { width, x: Box::new(x) }
}

pub open spec fn gated(width: Width, a: Val, b: Val) -> Val {
    Val::Gated { width, a: Box::new(a), b: Box::new(b) }
}

/// The buffer `p` of a card.
pub open spec fn on(far: bool, p: Part) -> Buf {
    Buf::Half(far, p)
}

/// What one launch does.
#[verifier::opaque]
pub open spec fn step(m: Mem, op: Op) -> Mem {
    match op {
        Op::On(c) => Mem { card: c, ..m },
        Op::Norm { dst, src, w, width } => m.made(dst, w, How::Norm(width), src),
        Op::NormIn { buf, w } => m.made(buf, w, How::NormIn, buf),
        Op::HeadNorm { buf, weight, width } => match weight {
            Some(w) => m.made(buf, w, How::HeadNorm(width), buf),
            None => m.put(buf, Val::UnitNormed { width, x: Box::new(m.at(buf)) }),
        },
        Op::Mul { dst, w, src, inner, outer } => m.made(dst, w, How::Product { inner, outer }, src),
        Op::MulF { dst, w, src, from, to, rows } => m.made(dst, w, How::Rows { from, to, rows }, src),
        Op::Bias { buf, w, width } => m.made(buf, w, How::Bias(width), buf),
        Op::Copy { dst, src, width } => m.put(dst, shifted(width, m.at(src))),
        Op::Conv { dst, src, w, state, width } => m.made(dst, w, How::Filter { state, width }, src),
        Op::Rope { buf, width, by } => m.put(
            buf,
            Val::Turned { by, width, x: Box::new(m.at(buf)) },
        ),
        Op::AppendK { src } => m.keep(Cell::Keys, m.at(src)),
        Op::AppendV { src } => m.keep(Cell::Values, m.at(src)),
        Op::Attend { src, rel } => match rel {
            Some(r) => m.put(
                Buf::Heads,
                Val::AttendedNear {
                    on: m.card,
                    q: Box::new(m.at(src)),
                    k: Box::new(m.cells[Cell::Keys]),
                    v: Box::new(m.cells[Cell::Values]),
                    rel: Box::new(m.at(r)),
                },
            ),
            None => m.put(
                Buf::Heads,
                Val::Attended {
                    on: m.card,
                    q: Box::new(m.at(src)),
                    k: Box::new(m.cells[Cell::Keys]),
                    v: Box::new(m.cells[Cell::Values]),
                },
            ),
        },
        Op::GateHeads => m.put(
            Buf::Heads,
            Val::HeadGated { x: Box::new(m.at(Buf::Heads)), gates: Box::new(m.at(Buf::HeadGates)) },
        ),
        Op::RopeTail { buf } => m.put(buf, Val::TailTurned { x: Box::new(m.at(buf)) }),
        Op::LatentNorm => m.put(Buf::KvNorm, Val::LatentNormed { x: Box::new(m.at(Buf::KvRaw)) }),
        Op::StoreLatent => m.keep(
            Cell::LatentRows,
            Val::Latent { norm: Box::new(m.at(Buf::KvNorm)), raw: Box::new(m.at(Buf::KvRaw)) },
        ),
        Op::StoreIdx => m.keep(Cell::IdxKeys, m.at(Buf::IdxKey)),
        Op::SelectAll { visible } => m.put(Buf::Selected, Val::AllRows { visible }),
        Op::RopeIdx => m.put(Buf::IdxQuery, Val::IdxTurned { x: Box::new(m.at(Buf::IdxQuery)) }),
        Op::Score { batch, visible } => m.put(
            Buf::IdxScores,
            Val::Scores {
                batch,
                visible,
                q: Box::new(m.at(Buf::IdxQuery)),
                weights: Box::new(m.at(Buf::IdxWeights)),
                keys: Box::new(m.cells[Cell::IdxKeys]),
            },
        ),
        Op::TopK { batch, visible, topk } => m.put(
            Buf::Selected,
            Val::Top { batch, visible, topk, x: Box::new(m.at(Buf::IdxScores)) },
        ),
        Op::HopSelection { len } => m.put(
            Buf::Selected,
            shifted(Width { n: 1, each: len }, m.at(Buf::Selected)),
        ),
        Op::LowRank => m.put(
            Buf::QkLow,
            Val::LowRank { on: m.card, q: Box::new(m.at(Buf::Q)) },
        ),
        Op::AttendLatent { rows } => m.put(
            Buf::Heads,
            Val::AttendedLatent {
                on: m.card,
                rows,
                q: Box::new(m.at(Buf::Q)),
                low: Box::new(m.at(Buf::QkLow)),
                sel: Box::new(m.at(Buf::Selected)),
                cache: Box::new(m.cells[Cell::LatentRows]),
            },
        ),
        Op::Add { dst, a, b } => m.put(dst, sum(m.at(a), m.at(b))),
        Op::AddIn { dst, src } => m.put(dst, sum(m.at(dst), m.at(src))),
        Op::Scale { buf, bits } => m.put(buf, Val::Scaled { bits, x: Box::new(m.at(buf)) }),
        Op::Zero { buf } => m.put(buf, Val::Zeros),
        Op::Swiglu { dst, a, b, width } => m.put(dst, gated(width, m.at(a), m.at(b))),
        Op::Select { pred } => if pred {
            let logits = Box::new(m.at(Buf::PredLogits));
            m.put(Buf::PredPicks, Val::Picked { logits }).put(
                Buf::PredWeights,
                Val::PickWeights { logits },
            )
        } else {
            let logits = Box::new(m.at(Buf::RouterLogits));
            m.put(Buf::Picks, Val::Picked { logits }).put(
                Buf::Weights,
                Val::PickWeights { logits },
            )
        },
        Op::ScaleWeights => m.put(
            Buf::Weights,
            Val::ScaledWeights {
                picks: Box::new(m.at(Buf::Picks)),
                weights: Box::new(m.at(Buf::Weights)),
            },
        ),
        Op::Quantize { dst, src, width } => m.put(dst, packed(width, m.at(src))),
        Op::Pair { dst, refs, grouped } => m.put(
            dst,
            Val::Mid {
                on: m.card,
                refs,
                grouped,
                weights: Box::new(m.at(seen_weights(refs))),
                x: Box::new(m.at(seen_blocks(refs))),
            },
        ),
        Op::Down { dst, refs, grouped } => if grouped {
            m.put(
                dst,
                Val::SlotRows {
                    on: m.card,
                    refs,
                    over: Box::new(m.at(dst)),
                    x: Box::new(m.at(seen_middle(refs))),
                },
            )
        } else {
            m.put(
                dst,
                Val::ExpertOut { on: m.card, refs, x: Box::new(m.at(seen_middle(refs))) },
            )
        },
        Op::DownBias { dst, refs } => m.put(
            dst,
            Val::ExpertBiased {
                on: m.card,
                refs,
                weights: Box::new(m.at(seen_weights(refs))),
                x: Box::new(m.at(dst)),
            },
        ),
        Op::SumSlots => m.put(Buf::MoeOut, Val::SlotSum { x: Box::new(m.at(Buf::SlotSums)) }),
        Op::ReadBack => m.keep(Cell::Seen, m.at(Buf::MoeOut)),
        Op::PutRefs(_) => m,
        Op::PutLanes => m.put(Buf::LaneOut, Val::Lanes),
        Op::Mat { dst, w, src, blocks, kq, inner, outer } => m.made(
            dst,
            w,
            How::Product { inner, outer },
            if kq {
                blocks
            } else {
                src
            },
        ),
        Op::Coeffs { far, packed } => if packed {
            m.put(on(far, Part::Packed), Val::CoeffPair { x: Box::new(m.at(on(far, Part::Packed))) })
        } else {
            let decay = Box::new(m.at(on(far, Part::Decay)));
            let raw = Box::new(m.at(on(far, Part::Beta)));
            m.put(on(far, Part::Decay), Val::Coeff { second: false, decay, raw }).put(
                on(far, Part::Beta),
                Val::Coeff { second: true, decay, raw },
            )
        },
        Op::ConvRows { far } => m.put(
            on(far, Part::ConvOut),
            Val::Windowed { far, x: Box::new(m.at(on(far, Part::Qkv))) },
        ),
        Op::SplitRows { far } => {
            let x = Box::new(m.at(on(far, Part::ConvOut)));
            m.put(on(far, Part::Gq), Val::Third { which: 0, x }).put(
                on(far, Part::Gk),
                Val::Third { which: 1, x },
            ).put(on(far, Part::Gv), Val::Third { which: 2, x })
        },
        Op::L2 { buf, width } => m.put(buf, Val::UnitLength { width, x: Box::new(m.at(buf)) }),
        Op::DeltaRule { far, packed } => {
            let q = Box::new(m.at(on(far, Part::Gq)));
            let k = Box::new(m.at(on(far, Part::Gk)));
            let v = Box::new(m.at(on(far, Part::Gv)));
            if packed {
                let pair = Box::new(m.at(on(far, Part::Packed)));
                m.put(on(far, Part::Delta), Val::RuledPair { far, q, k, v, pair })
            } else {
                let decay = Box::new(m.at(on(far, Part::Decay)));
                let beta = Box::new(m.at(on(far, Part::Beta)));
                m.put(on(far, Part::Delta), Val::Ruled { far, q, k, v, decay, beta })
            }
        },
        Op::SplitGate { far } => {
            let x = Box::new(m.at(on(far, Part::QueryGate)));
            m.put(on(far, Part::Q), Val::Split { second: false, x }).put(
                on(far, Part::Gate),
                Val::Split { second: true, x },
            )
        },
        Op::GateRows { far } => m.put(
            on(far, Part::Heads),
            Val::RowGated {
                x: Box::new(m.at(on(far, Part::Heads))),
                gate: Box::new(m.at(on(far, Part::Gate))),
            },
        ),
        Op::RopeHalf { buf, width, on_card } => m.put(
            buf,
            Val::TurnedHalf { width, on_card, x: Box::new(m.at(buf)) },
        ),
        Op::AppendHalf { far, key, src, on_card } => m.keep(
            if key {
                Cell::HalfKeys(far)
            } else {
                Cell::HalfValues(far)
            },
            Val::Cached { on_card, x: Box::new(m.at(src)) },
        ),
        Op::AttendHalf { far, src, on_card } => m.put(
            on(far, Part::Heads),
            Val::AttendedHalf {
                far,
                on_card,
                q: Box::new(m.at(src)),
                k: Box::new(m.cells[Cell::HalfKeys(far)]),
                v: Box::new(m.cells[Cell::HalfValues(far)]),
            },
        ),
        Op::Send { src, back } => m.put(
            if back {
                Buf::LinkBack
            } else {
                Buf::Link
            },
            m.at(src),
        ),
        Op::Recv { dst, back } => m.put(
            dst,
            m.at(
                if back {
                    Buf::LinkBack
                } else {
                    Buf::Link
                },
            ),
        ),
        Op::Stash => m.keep(
            Cell::Stash,
            Val::Stashed {
                qkv: Box::new(m.at(on(false, Part::Qkv))),
                decay: Box::new(m.at(on(false, Part::Decay))),
                beta: Box::new(m.at(on(false, Part::Beta))),
            },
        ),
        Op::Capture { column, staged } => m.keep(Cell::Ring(column, staged), m.at(Buf::Cur)),
        Op::GateShared => m.put(
            Buf::SharedOut,
            Val::SharedGated {
                x: Box::new(m.at(Buf::SharedOut)),
                gate: Box::new(m.at(Buf::SharedGate)),
            },
        ),
        Op::Experts => m.put(
            Buf::MoeOut,
            Val::Routed {
                picks: Box::new(m.at(Buf::Picks)),
                weights: Box::new(m.at(Buf::Weights)),
                x: Box::new(m.at(on(false, Part::Blocks))),
            },
        ),
    }
}

/// The slot weights that the experts of `refs` see: a tier's own copy, on a
/// tier.
pub open spec fn seen_weights(refs: Refs) -> Buf {
    match refs {
        Refs::Tier(t) => Buf::TierWeights(t),
        Refs::TierShared(t) => Buf::TierWeights(t),
        _ => Buf::Weights,
    }
}

/// The input blocks that they see.
pub open spec fn seen_blocks(refs: Refs) -> Buf {
    match refs {
        Refs::Tier(t) => Buf::TierBlocks(t),
        Refs::TierShared(t) => Buf::TierBlocks(t),
        _ => Buf::Blocks,
    }
}

/// The middle blocks that they see.
pub open spec fn seen_middle(refs: Refs) -> Buf {
    match refs {
        Refs::Tier(t) => Buf::TierMidBlocks(t),
        Refs::TierShared(t) => Buf::TierMidBlocks(t),
        _ => Buf::MidBlocks,
    }
}

/// What the launches from `i` on leave.
pub open spec fn run(ops: Seq<Op>, i: int, m: Mem) -> Mem
    decreases ops.len() - i,
{
    if i >= ops.len() {
        m
    } else {
        run(ops, i + 1, step(m, ops[i]))
    }
}

proof fn lemma_shift(a: Seq<Op>, b: Seq<Op>, i: int, m: Mem)
    requires
        0 <= i <= b.len(),
    ensures
        run(a + b, a.len() + i, m) == run(b, i, m),
    decreases b.len() - i,
{
    if i < b.len() {
        assert((a + b)[a.len() + i] == b[i]);
        lemma_shift(a, b, i + 1, step(m, b[i]));
    }
}

proof fn lemma_join(a: Seq<Op>, b: Seq<Op>, i: int, m: Mem)
    requires
        0 <= i <= a.len(),
    ensures
        run(a + b, i, m) == run(b, 0, run(a, i, m)),
    decreases a.len() - i,
{
    if i < a.len() {
        assert((a + b)[i] == a[i]);
        lemma_join(a, b, i + 1, step(m, a[i]));
    } else {
        lemma_shift(a, b, 0, m);
    }
}

/// Launches one list behind another.
pub proof fn lists_run_in_order(a: Seq<Op>, b: Seq<Op>, m: Mem)
    ensures
        run(a + b, 0, m) == run(b, 0, run(a, 0, m)),
{
    lemma_join(a, b, 0, m);
}

/// The card that attention runs on.
pub open spec fn attn_place(far: bool) -> Place {
    if far {
        Place::Attn
    } else {
        Place::Primary
    }
}

pub open spec fn rows_of(each: u32) -> Width {
    Width { n: 1, each }
}

/// Rows on attention's card: brought over, where that is another one.
pub open spec fn over(far: bool, width: Width, x: Val) -> Val {
    if far {
        shifted(width, x)
    } else {
        x
    }
}

/// A step that only some layers have.
pub open spec fn maybe(has: bool, on: Place, w: Weight, how: How, x: Val) -> Val {
    if has {
        applied(on, w, how, x)
    } else {
        x
    }
}

/// A short convolution, back in the buffer of its input.
pub open spec fn filtered(has: bool, on: Place, w: Weight, state: u32, width: Width, x: Val) -> Val {
    if has {
        shifted(width, applied(on, w, How::Filter { state, width }, x))
    } else {
        x
    }
}

/// Rotation by position, unless a bias carries positions.
pub open spec fn rotated(by: Rotation, width: Width, x: Val) -> Val {
    if by is Bias {
        x
    } else {
        Val::Turned { by, width, x: Box::new(x) }
    }
}

pub open spec fn times(on: Place, w: Weight, inner: Width, outer: Width, x: Val) -> Val {
    applied(on, w, How::Product { inner, outer }, x)
}

/// The input of attention: the normed stream.
pub open spec fn attn_in(s: &Shape, far: bool, cur: Val) -> Val {
    over(
        far,
        rows_of(s.n_embd),
        applied(Place::Primary, Weight::AttnNorm, How::Norm(rows_of(s.n_embd)), cur),
    )
}

/// The queries of grouped-query attention, from its input `x`: projected,
/// biased, normed by head and rotated, each as far as the layer has it.
pub open spec fn queries(s: &Shape, p: GqaPlan, f: AttnFacts, x: Val) -> Val {
    let c = attn_place(f.far);
    let w = Width { n: p.n_head_q, each: p.head_dim };
    let raw = times(c, Weight::AttnQ, rows_of(s.n_embd), w, x);
    let biased = maybe(f.bias, c, Weight::BiasQ, How::Bias(w), raw);
    rotated(p.rotation, w, maybe(f.q_norm, c, Weight::QNorm, How::HeadNorm(w), biased))
}

/// The keys before convolution, norm and rotation.
pub open spec fn raw_keys(s: &Shape, p: GqaPlan, f: AttnFacts, x: Val) -> Val {
    let c = attn_place(f.far);
    let w = Width { n: p.n_head_kv, each: p.head_dim };
    maybe(
        f.bias,
        c,
        Weight::BiasK,
        How::Bias(w),
        times(c, Weight::AttnK, rows_of(s.n_embd), w, x),
    )
}

/// The keys.
pub open spec fn keys(s: &Shape, p: GqaPlan, f: AttnFacts, x: Val) -> Val {
    let c = attn_place(f.far);
    let w = Width { n: p.n_head_kv, each: p.head_dim };
    let conv = filtered(f.relative is Some, c, Weight::ConvK, 0, w, raw_keys(s, p, f, x));
    rotated(p.rotation, w, maybe(f.k_norm, c, Weight::KNorm, How::HeadNorm(w), conv))
}

/// The values: their own projection, or the raw keys. They are not rotated.
pub open spec fn values(s: &Shape, p: GqaPlan, f: AttnFacts, x: Val) -> Val {
    let c = attn_place(f.far);
    let w = Width { n: p.n_head_kv, each: p.head_dim };
    let raw = if f.has_v {
        maybe(
            f.bias,
            c,
            Weight::BiasV,
            How::Bias(w),
            times(c, Weight::AttnV, rows_of(s.n_embd), w, x),
        )
    } else {
        shifted(w, raw_keys(s, p, f, x))
    };
    let conv = filtered(f.relative is Some, c, Weight::ConvV, 1, w, raw);
    if p.norm_values {
        Val::UnitNormed { width: w, x: Box::new(conv) }
    } else {
        conv
    }
}

/// Rows under the fixed rotation of packed caches.
pub open spec fn spun(has: bool, on: Place, dim: u32, heads: u32, x: Val) -> Val {
    maybe(has, on, Weight::Rotate, How::Rows { from: dim, to: dim, rows: heads }, x)
}

/// Attention of the queries over the keys and values, with the bias by
/// relative position and the gates of the heads where the layer has them.
pub open spec fn attended(s: &Shape, p: GqaPlan, f: AttnFacts, x: Val) -> Val {
    let c = attn_place(f.far);
    let q = spun(f.rotate, c, p.head_dim, p.n_head_q, queries(s, p, f, x));
    let k = spun(f.rotate, c, p.head_dim, p.n_head_kv, keys(s, p, f, x));
    let v = values(s, p, f, x);
    let heads = match f.relative {
        Some(reach) => Val::AttendedNear {
            on: c,
            q: Box::new(q),
            k: Box::new(k),
            v: Box::new(v),
            rel: Box::new(
                applied(
                    c,
                    Weight::RelProj,
                    How::Rows { from: s.d_rel, to: reach, rows: s.n_head },
                    times(
                        c,
                        Weight::Rel,
                        rows_of(s.n_embd),
                        Width { n: s.n_head, each: s.d_rel },
                        x,
                    ),
                ),
            ),
        },
        None => Val::Attended { on: c, q: Box::new(q), k: Box::new(k), v: Box::new(v) },
    };
    if f.head_gate {
        Val::HeadGated {
            x: Box::new(heads),
            gates: Box::new(
                times(c, Weight::HeadGate, rows_of(s.n_embd), rows_of(p.n_head_q), x),
            ),
        }
    } else {
        heads
    }
}

/// The output projection of the heads, back on the primary card.
pub open spec fn projected(s: &Shape, far: bool, inner: Width, heads: Val) -> Val {
    over(
        far,
        rows_of(s.n_embd),
        times(attn_place(far), Weight::AttnOutput, inner, rows_of(s.n_embd), heads),
    )
}

/// The stream behind attention: what it was, plus attention's output, which
/// is normed and convolved where the layer does.
pub open spec fn behind_attn(s: &Shape, f: AttnFacts, cur: Val, out: Val) -> Val {
    let pr = Place::Primary;
    let normed = maybe(f.post_norm, pr, Weight::PostAttnNorm, How::NormIn, out);
    sum(
        cur,
        filtered(f.relative is Some, pr, Weight::ConvAttn, 2, rows_of(s.n_embd), normed),
    )
}

pub open spec fn same_but(a: Mem, b: Mem, cs: Set<Cell>) -> bool {
    forall|c: Cell| !cs.contains(c) ==> #[trigger] a.cells[c] == b.cells[c]
}

proof fn lemma_enter(s: &Shape, far: bool, m: Mem)
    requires
        m.card == Place::Primary,
    ensures
        ({
            let r = run(graph::enter_ops(s, far), 0, m);
            &&& r.card == attn_place(far)
            &&& r.at(graph::attn_input(far)) == attn_in(s, far, m.at(Buf::Cur))
            &&& same_but(r, m, set![Cell::At(Buf::Normed), Cell::At(Buf::FarIn)])
        }),
{
    reveal(step);
    reveal_with_fuel(run, 4);
}

proof fn lemma_qkv(s: &Shape, p: GqaPlan, f: AttnFacts, m: Mem)
    requires
        m.card == attn_place(f.far),
    ensures
        ({
            let c = m.card;
            let x = m.at(graph::attn_input(f.far));
            let q = Width { n: p.n_head_q, each: p.head_dim };
            let kv = Width { n: p.n_head_kv, each: p.head_dim };
            let r = run(graph::qk_ops(s, p, f), 0, m);
            let r2 = run(graph::v_ops(s, p, f), 0, m);
            &&& r.card == c
            &&& r2.card == c
            &&& r.at(Buf::Q) == maybe(
                f.bias,
                c,
                Weight::BiasQ,
                How::Bias(q),
                times(c, Weight::AttnQ, rows_of(s.n_embd), q, x),
            )
            &&& r.at(Buf::K) == raw_keys(s, p, f, x)
            &&& same_but(r, m, set![Cell::At(Buf::Q), Cell::At(Buf::K)])
            &&& r2.at(Buf::V) == (if f.has_v {
                maybe(
                    f.bias,
                    c,
                    Weight::BiasV,
                    How::Bias(kv),
                    times(c, Weight::AttnV, rows_of(s.n_embd), kv, x),
                )
            } else {
                shifted(kv, m.at(Buf::K))
            })
            &&& same_but(r2, m, set![Cell::At(Buf::V)])
        }),
{
    if f.bias {
        let ops = graph::qk_ops(s, p, f);
        let m1 = m.made(Buf::Q, Weight::AttnQ, How::Product { inner: rows_of(s.n_embd), outer: Width { n: p.n_head_q, each: p.head_dim } }, graph::attn_input(f.far));
        assert(step(m, ops[0]) == m1) by {
            reveal(step);
        }
        let m2 = m1.made(Buf::K, Weight::AttnK, How::Product { inner: rows_of(s.n_embd), outer: Width { n: p.n_head_kv, each: p.head_dim } }, graph::attn_input(f.far));
        assert(step(m1, ops[1]) == m2) by {
            reveal(step);
        }
        let m3 = m2.made(Buf::Q, Weight::BiasQ, How::Bias(Width { n: p.n_head_q, each: p.head_dim }), Buf::Q);
        assert(step(m2, ops[2]) == m3) by {
            reveal(step);
        }
        let m4 = m3.made(Buf::K, Weight::BiasK, How::Bias(Width { n: p.n_head_kv, each: p.head_dim }), Buf::K);
        assert(step(m3, ops[3]) == m4) by {
            reveal(step);
        }
        assert(run(ops, 0, m) == m4) by {
            reveal_with_fuel(run, 5);
        }
    } else {
        let ops = graph::qk_ops(s, p, f);
        let m1 = m.made(Buf::Q, Weight::AttnQ, How::Product { inner: rows_of(s.n_embd), outer: Width { n: p.n_head_q, each: p.head_dim } }, graph::attn_input(f.far));
        assert(step(m, ops[0]) == m1) by {
            reveal(step);
        }
        let m2 = m1.made(Buf::K, Weight::AttnK, How::Product { inner: rows_of(s.n_embd), outer: Width { n: p.n_head_kv, each: p.head_dim } }, graph::attn_input(f.far));
        assert(step(m1, ops[1]) == m2) by {
            reveal(step);
        }
        assert(run(ops, 0, m) == m2) by {
            reveal_with_fuel(run, 3);
        }
    }
    if !f.has_v {
        let ops = graph::v_ops(s, p, f);
        let m1 = m.put(Buf::V, shifted(Width { n: p.n_head_kv, each: p.head_dim }, m.at(Buf::K)));
        assert(step(m, ops[0]) == m1) by {
            reveal(step);
        }
        assert(run(ops, 0, m) == m1) by {
            reveal_with_fuel(run, 2);
        }
    } else if f.bias {
        let ops = graph::v_ops(s, p, f);
        let m1 = m.made(Buf::V, Weight::AttnV, How::Product { inner: rows_of(s.n_embd), outer: Width { n: p.n_head_kv, each: p.head_dim } }, graph::attn_input(f.far));
        assert(step(m, ops[0]) == m1) by {
            reveal(step);
        }
        let m2 = m1.made(Buf::V, Weight::BiasV, How::Bias(Width { n: p.n_head_kv, each: p.head_dim }), Buf::V);
        assert(step(m1, ops[1]) == m2) by {
            reveal(step);
        }
        assert(run(ops, 0, m) == m2) by {
            reveal_with_fuel(run, 3);
        }
    } else {
        let ops = graph::v_ops(s, p, f);
        let m1 = m.made(Buf::V, Weight::AttnV, How::Product { inner: rows_of(s.n_embd), outer: Width { n: p.n_head_kv, each: p.head_dim } }, graph::attn_input(f.far));
        assert(step(m, ops[0]) == m1) by {
            reveal(step);
        }
        assert(run(ops, 0, m) == m1) by {
            reveal_with_fuel(run, 2);
        }
    }
}

proof fn lemma_conv(p: GqaPlan, f: AttnFacts, m: Mem)
    ensures
        ({
            let kv = Width { n: p.n_head_kv, each: p.head_dim };
            let on = f.relative is Some;
            let r = run(graph::conv_ops(p, f), 0, m);
            &&& r.card == m.card
            &&& r.at(Buf::K) == filtered(on, m.card, Weight::ConvK, 0, kv, m.at(Buf::K))
            &&& r.at(Buf::V) == filtered(on, m.card, Weight::ConvV, 1, kv, m.at(Buf::V))
            &&& same_but(
                r,
                m,
                set![Cell::At(Buf::K), Cell::At(Buf::V), Cell::At(Buf::KvConv)],
            )
        }),
{
    if f.relative is Some {
        let ops = graph::conv_ops(p, f);
        let m1 = m.made(Buf::KvConv, Weight::ConvK, How::Filter { state: 0, width: Width { n: p.n_head_kv, each: p.head_dim } }, Buf::K);
        assert(step(m, ops[0]) == m1) by {
            reveal(step);
        }
        let m2 = m1.put(Buf::K, shifted(Width { n: p.n_head_kv, each: p.head_dim }, m1.at(Buf::KvConv)));
        assert(step(m1, ops[1]) == m2) by {
            reveal(step);
        }
        let m3 = m2.made(Buf::KvConv, Weight::ConvV, How::Filter { state: 1, width: Width { n: p.n_head_kv, each: p.head_dim } }, Buf::V);
        assert(step(m2, ops[2]) == m3) by {
            reveal(step);
        }
        let m4 = m3.put(Buf::V, shifted(Width { n: p.n_head_kv, each: p.head_dim }, m3.at(Buf::KvConv)));
        assert(step(m3, ops[3]) == m4) by {
            reveal(step);
        }
        assert(run(ops, 0, m) == m4) by {
            reveal_with_fuel(run, 5);
        }
    } else {
        let ops = graph::conv_ops(p, f);
        assert(run(ops, 0, m) == m) by {
            reveal_with_fuel(run, 1);
        }
    }
}

proof fn lemma_norms(p: GqaPlan, f: AttnFacts, m: Mem)
    ensures
        ({
            let q = Width { n: p.n_head_q, each: p.head_dim };
            let kv = Width { n: p.n_head_kv, each: p.head_dim };
            let r = run(graph::head_norm_ops(p, f), 0, m);
            &&& r.card == m.card
            &&& r.at(Buf::Q) == maybe(
                f.q_norm,
                m.card,
                Weight::QNorm,
                How::HeadNorm(q),
                m.at(Buf::Q),
            )
            &&& r.at(Buf::K) == maybe(
                f.k_norm,
                m.card,
                Weight::KNorm,
                How::HeadNorm(kv),
                m.at(Buf::K),
            )
            &&& r.at(Buf::V) == (if p.norm_values {
                Val::UnitNormed { width: kv, x: Box::new(m.at(Buf::V)) }
            } else {
                m.at(Buf::V)
            })
            &&& same_but(r, m, set![Cell::At(Buf::Q), Cell::At(Buf::K), Cell::At(Buf::V)])
        }),
{
    let q = Width { n: p.n_head_q, each: p.head_dim };
    let kv = Width { n: p.n_head_kv, each: p.head_dim };
    let a = if f.q_norm {
        seq![Op::HeadNorm { buf: Buf::Q, weight: Some(Weight::QNorm), width: q }]
    } else {
        Seq::empty()
    };
    let b = if f.k_norm {
        seq![Op::HeadNorm { buf: Buf::K, weight: Some(Weight::KNorm), width: kv }]
    } else {
        Seq::empty()
    };
    let c = if p.norm_values {
        seq![Op::HeadNorm { buf: Buf::V, weight: None, width: kv }]
    } else {
        Seq::empty()
    };
    assert(graph::head_norm_ops(p, f) == a + b + c);
    lists_run_in_order(a, b, m);
    lists_run_in_order(a + b, c, m);
    reveal(step);
    reveal_with_fuel(run, 2);
}

proof fn lemma_rope(p: GqaPlan, f: AttnFacts, m: Mem)
    ensures
        ({
            let q = Width { n: p.n_head_q, each: p.head_dim };
            let kv = Width { n: p.n_head_kv, each: p.head_dim };
            let r = run(graph::rope_ops(p), 0, m);
            &&& r.card == m.card
            &&& r.at(Buf::Q) == rotated(p.rotation, q, m.at(Buf::Q))
            &&& r.at(Buf::K) == rotated(p.rotation, kv, m.at(Buf::K))
            &&& same_but(r, m, set![Cell::At(Buf::Q), Cell::At(Buf::K)])
        }),
        ({
            let r = run(graph::append_ops(p, f), 0, m);
            &&& r.card == m.card
            &&& r.cells[Cell::Keys] == spun(
                f.rotate,
                m.card,
                p.head_dim,
                p.n_head_kv,
                m.at(Buf::K),
            )
            &&& r.cells[Cell::Values] == m.at(Buf::V)
            &&& same_but(r, m, set![Cell::At(Buf::RotK), Cell::Keys, Cell::Values])
        }),
{
    reveal(step);
    reveal_with_fuel(run, 4);
}

proof fn lemma_score(s: &Shape, p: GqaPlan, f: AttnFacts, m: Mem)
    ensures
        ({
            let c = m.card;
            let x = m.at(graph::attn_input(f.far));
            let r = run(graph::score_ops(s, p, f), 0, m);
            &&& r.card == c
            &&& f.relative matches Some(reach) ==> r.at(Buf::RelBias) == applied(
                c,
                Weight::RelProj,
                How::Rows { from: s.d_rel, to: reach, rows: s.n_head },
                times(
                    c,
                    Weight::Rel,
                    rows_of(s.n_embd),
                    Width { n: s.n_head, each: s.d_rel },
                    x,
                ),
            )
            &&& r.at(
                if f.rotate {
                    Buf::RotQ
                } else {
                    Buf::Q
                },
            ) == spun(f.rotate, c, p.head_dim, p.n_head_q, m.at(Buf::Q))
            &&& same_but(
                r,
                m,
                set![Cell::At(Buf::RelQuery), Cell::At(Buf::RelBias), Cell::At(Buf::RotQ)],
            )
        }),
{
    match f.relative {
        Some(reach) => {
    if f.rotate {
        let ops = graph::score_ops(s, p, f);
        let m1 = m.made(Buf::RelQuery, Weight::Rel, How::Product { inner: rows_of(s.n_embd), outer: Width { n: s.n_head, each: s.d_rel } }, graph::attn_input(f.far));
        assert(step(m, ops[0]) == m1) by {
            reveal(step);
        }
        let m2 = m1.made(Buf::RelBias, Weight::RelProj, How::Rows { from: s.d_rel, to: reach, rows: s.n_head }, Buf::RelQuery);
        assert(step(m1, ops[1]) == m2) by {
            reveal(step);
        }
        let m3 = m2.made(Buf::RotQ, Weight::Rotate, How::Rows { from: p.head_dim, to: p.head_dim, rows: p.n_head_q }, Buf::Q);
        assert(step(m2, ops[2]) == m3) by {
            reveal(step);
        }
        assert(run(ops, 0, m) == m3) by {
            reveal_with_fuel(run, 4);
        }
    } else {
        let ops = graph::score_ops(s, p, f);
        let m1 = m.made(Buf::RelQuery, Weight::Rel, How::Product { inner: rows_of(s.n_embd), outer: Width { n: s.n_head, each: s.d_rel } }, graph::attn_input(f.far));
        assert(step(m, ops[0]) == m1) by {
            reveal(step);
        }
        let m2 = m1.made(Buf::RelBias, Weight::RelProj, How::Rows { from: s.d_rel, to: reach, rows: s.n_head }, Buf::RelQuery);
        assert(step(m1, ops[1]) == m2) by {
            reveal(step);
        }
        assert(run(ops, 0, m) == m2) by {
            reveal_with_fuel(run, 3);
        }
    }
        },
        None => {
    if f.rotate {
        let ops = graph::score_ops(s, p, f);
        let m1 = m.made(Buf::RotQ, Weight::Rotate, How::Rows { from: p.head_dim, to: p.head_dim, rows: p.n_head_q }, Buf::Q);
        assert(step(m, ops[0]) == m1) by {
            reveal(step);
        }
        assert(run(ops, 0, m) == m1) by {
            reveal_with_fuel(run, 2);
        }
    } else {
        let ops = graph::score_ops(s, p, f);
        assert(run(ops, 0, m) == m) by {
            reveal_with_fuel(run, 1);
        }
    }
        },
    }
}

proof fn lemma_attend(s: &Shape, p: GqaPlan, f: AttnFacts, m: Mem)
    ensures
        ({
            let c = m.card;
            let q = Box::new(
                m.at(
                    if f.rotate {
                        Buf::RotQ
                    } else {
                        Buf::Q
                    },
                ),
            );
            let k = Box::new(m.cells[Cell::Keys]);
            let v = Box::new(m.cells[Cell::Values]);
            let heads = if f.relative is Some {
                Val::AttendedNear { on: c, q, k, v, rel: Box::new(m.at(Buf::RelBias)) }
            } else {
                Val::Attended { on: c, q, k, v }
            };
            let r = run(graph::attend_ops(s, p, f), 0, m);
            &&& r.card == c
            &&& r.at(Buf::Heads) == (if f.head_gate {
                Val::HeadGated {
                    x: Box::new(heads),
                    gates: Box::new(
                        times(
                            c,
                            Weight::HeadGate,
                            rows_of(s.n_embd),
                            rows_of(p.n_head_q),
                            m.at(graph::attn_input(f.far)),
                        ),
                    ),
                }
            } else {
                heads
            })
            &&& same_but(r, m, set![Cell::At(Buf::Heads), Cell::At(Buf::HeadGates)])
        }),
{
    let q = if f.rotate { Buf::RotQ } else { Buf::Q };
    if f.head_gate {
        let ops = graph::attend_ops(s, p, f);
        let m1 = m.put(Buf::Heads, if f.relative is Some { Val::AttendedNear { on: m.card, q: Box::new(m.at(q)), k: Box::new(m.cells[Cell::Keys]), v: Box::new(m.cells[Cell::Values]), rel: Box::new(m.at(Buf::RelBias)) } } else { Val::Attended { on: m.card, q: Box::new(m.at(q)), k: Box::new(m.cells[Cell::Keys]), v: Box::new(m.cells[Cell::Values]) } });
        assert(step(m, ops[0]) == m1) by {
            reveal(step);
        }
        let m2 = m1.made(Buf::HeadGates, Weight::HeadGate, How::Product { inner: rows_of(s.n_embd), outer: rows_of(p.n_head_q) }, graph::attn_input(f.far));
        assert(step(m1, ops[1]) == m2) by {
            reveal(step);
        }
        let m3 = m2.put(Buf::Heads, Val::HeadGated { x: Box::new(m2.at(Buf::Heads)), gates: Box::new(m2.at(Buf::HeadGates)) });
        assert(step(m2, ops[2]) == m3) by {
            reveal(step);
        }
        assert(run(ops, 0, m) == m3) by {
            reveal_with_fuel(run, 4);
        }
    } else {
        let ops = graph::attend_ops(s, p, f);
        let m1 = m.put(Buf::Heads, if f.relative is Some { Val::AttendedNear { on: m.card, q: Box::new(m.at(q)), k: Box::new(m.cells[Cell::Keys]), v: Box::new(m.cells[Cell::Values]), rel: Box::new(m.at(Buf::RelBias)) } } else { Val::Attended { on: m.card, q: Box::new(m.at(q)), k: Box::new(m.cells[Cell::Keys]), v: Box::new(m.cells[Cell::Values]) } });
        assert(step(m, ops[0]) == m1) by {
            reveal(step);
        }
        assert(run(ops, 0, m) == m1) by {
            reveal_with_fuel(run, 2);
        }
    }
}

proof fn lemma_leave(s: &Shape, heads: Width, far: bool, m: Mem)
    requires
        m.card == attn_place(far),
    ensures
        ({
            let r = run(graph::leave_ops(s, heads, far), 0, m);
            &&& r.card == Place::Primary
            &&& r.at(Buf::AttnOut) == projected(s, far, heads, m.at(Buf::Heads))
            &&& same_but(r, m, set![Cell::At(Buf::AttnOut), Cell::At(Buf::FarOut)])
        }),
{
    reveal(step);
    reveal_with_fuel(run, 4);
}

proof fn lemma_out_bias(s: &Shape, f: AttnFacts, m: Mem)
    requires
        m.card == Place::Primary,
    ensures
        ({
            let r = run(graph::out_bias_ops(s, f), 0, m);
            &&& r.card == m.card
            &&& r.at(Buf::AttnOut) == maybe(
                f.bias && !f.far,
                m.card,
                Weight::BiasOut,
                How::Bias(rows_of(s.n_embd)),
                m.at(Buf::AttnOut),
            )
            &&& same_but(r, m, set![Cell::At(Buf::AttnOut)])
        }),
{
    reveal(step);
    reveal_with_fuel(run, 3);
}

proof fn lemma_residual(s: &Shape, f: AttnFacts, m: Mem)
    requires
        m.card == Place::Primary,
    ensures
        ({
            let r = run(graph::residual_ops(s, f), 0, m);
            let after = behind_attn(s, f, m.at(Buf::Cur), m.at(Buf::AttnOut));
            &&& r.card == m.card
            &&& r.at(Buf::AfterAttn) == after
            &&& r.at(Buf::Normed) == applied(
                m.card,
                Weight::FfnNorm,
                How::Norm(rows_of(s.n_embd)),
                after,
            )
            &&& same_but(
                r,
                m,
                set![
                    Cell::At(Buf::AttnOut),
                    Cell::At(Buf::Conv),
                    Cell::At(Buf::AfterAttn),
                    Cell::At(Buf::Normed),
                ],
            )
        }),
{
    let a = if f.post_norm {
        seq![Op::NormIn { buf: Buf::AttnOut, w: Weight::PostAttnNorm }]
    } else {
        Seq::empty()
    };
    let b = if f.relative is Some {
        seq![
            Op::Conv {
                dst: Buf::Conv,
                src: Buf::AttnOut,
                w: Weight::ConvAttn,
                state: 2,
                width: rows_of(s.n_embd),
            },
            Op::Copy { dst: Buf::AttnOut, src: Buf::Conv, width: rows_of(s.n_embd) },
        ]
    } else {
        Seq::empty()
    };
    let c = seq![
        Op::Add { dst: Buf::AfterAttn, a: Buf::Cur, b: Buf::AttnOut },
        Op::Norm { dst: Buf::Normed, src: Buf::AfterAttn, w: Weight::FfnNorm, width: rows_of(s.n_embd) },
    ];
    assert(graph::residual_ops(s, f) == a + b + c);
    lists_run_in_order(a, b, m);
    lists_run_in_order(a + b, c, m);
    reveal(step);
    reveal_with_fuel(run, 3);
}

/// What the attention half of a grouped-query layer computes. The stream
/// gains the projection of the attended heads; the feed-forward's input is
/// its norm; keys and values are what the caches gain; and the stream itself
/// is untouched until the feed-forward has joined.
pub proof fn gqa_half_computes_attention(s: &Shape, p: GqaPlan, f: AttnFacts, m: Mem)
    requires
        m.card == Place::Primary,
    ensures
        ({
            let r = run(graph::gqa_ops(s, p, f), 0, m);
            let cur = m.at(Buf::Cur);
            let x = attn_in(s, f.far, cur);
            let c = attn_place(f.far);
            let out = maybe(
                f.bias && !f.far,
                Place::Primary,
                Weight::BiasOut,
                How::Bias(rows_of(s.n_embd)),
                projected(
                    s,
                    f.far,
                    Width { n: p.n_head_q, each: p.head_dim },
                    attended(s, p, f, x),
                ),
            );
            &&& r.card == Place::Primary
            &&& r.at(Buf::Cur) == cur
            &&& r.cells[Cell::Keys] == spun(
                f.rotate,
                c,
                p.head_dim,
                p.n_head_kv,
                keys(s, p, f, x),
            )
            &&& r.cells[Cell::Values] == values(s, p, f, x)
            &&& r.at(Buf::AfterAttn) == behind_attn(s, f, cur, out)
            &&& r.at(Buf::Normed) == applied(
                Place::Primary,
                Weight::FfnNorm,
                How::Norm(rows_of(s.n_embd)),
                behind_attn(s, f, cur, out),
            )
        }),
{
    let heads = Width { n: p.n_head_q, each: p.head_dim };
    let e = Seq::<Op>::empty();
    let a1 = e + graph::enter_ops(s, f.far);
    let a2 = a1 + graph::qk_ops(s, p, f);
    let a3 = a2 + graph::v_ops(s, p, f);
    let a4 = a3 + graph::conv_ops(p, f);
    let a5 = a4 + graph::head_norm_ops(p, f);
    let a6 = a5 + graph::rope_ops(p);
    let a7 = a6 + graph::append_ops(p, f);
    let a8 = a7 + graph::score_ops(s, p, f);
    let a9 = a8 + graph::attend_ops(s, p, f);
    let a10 = a9 + graph::leave_ops(s, heads, f.far);
    let a11 = a10 + graph::out_bias_ops(s, f);
    lists_run_in_order(e, graph::enter_ops(s, f.far), m);
    lists_run_in_order(a1, graph::qk_ops(s, p, f), m);
    lists_run_in_order(a2, graph::v_ops(s, p, f), m);
    lists_run_in_order(a3, graph::conv_ops(p, f), m);
    lists_run_in_order(a4, graph::head_norm_ops(p, f), m);
    lists_run_in_order(a5, graph::rope_ops(p), m);
    lists_run_in_order(a6, graph::append_ops(p, f), m);
    lists_run_in_order(a7, graph::score_ops(s, p, f), m);
    lists_run_in_order(a8, graph::attend_ops(s, p, f), m);
    lists_run_in_order(a9, graph::leave_ops(s, heads, f.far), m);
    lists_run_in_order(a10, graph::out_bias_ops(s, f), m);
    lists_run_in_order(a11, graph::residual_ops(s, f), m);
    lemma_enter(s, f.far, m);
    lemma_qkv(s, p, f, run(a1, 0, m));
    lemma_qkv(s, p, f, run(a2, 0, m));
    lemma_conv(p, f, run(a3, 0, m));
    lemma_norms(p, f, run(a4, 0, m));
    lemma_rope(p, f, run(a5, 0, m));
    lemma_rope(p, f, run(a6, 0, m));
    lemma_score(s, p, f, run(a7, 0, m));
    lemma_attend(s, p, f, run(a8, 0, m));
    lemma_leave(s, heads, f.far, run(a9, 0, m));
    lemma_out_bias(s, f, run(a10, 0, m));
    lemma_residual(s, f, run(a11, 0, m));
}

/// The normed query bottleneck of latent attention, from its input.
pub open spec fn query_rank(s: &Shape, far: bool, x: Val) -> Val {
    let c = attn_place(far);
    applied(
        c,
        Weight::QANorm,
        How::Norm(rows_of(s.n_lora_q)),
        times(c, Weight::QA, rows_of(s.n_embd), rows_of(s.n_lora_q), x),
    )
}

/// The queries of latent attention, their tails rotated.
pub open spec fn latent_queries(s: &Shape, far: bool, x: Val) -> Val {
    Val::TailTurned {
        x: Box::new(
            times(
                attn_place(far),
                Weight::QB,
                rows_of(s.n_lora_q),
                Width { n: s.n_head, each: (s.qk_nope + s.qk_rope) as u32 },
                query_rank(s, far, x),
            ),
        ),
    }
}

/// The latent row that joins the cache.
pub open spec fn latent_row(s: &Shape, far: bool, x: Val) -> Val {
    let raw = times(
        attn_place(far),
        Weight::KvA,
        rows_of(s.n_embd),
        rows_of((s.n_kv_lora + s.qk_rope) as u32),
        x,
    );
    Val::Latent {
        norm: Box::new(Val::LatentNormed { x: Box::new(raw) }),
        raw: Box::new(raw),
    }
}

/// The rows that are attended to: all, the best scored, or those of a layer
/// before.
pub open spec fn selection(
    s: &Shape,
    l: LatentFacts,
    far: bool,
    cur: Val,
    x: Val,
    keys: Val,
    live: Val,
) -> Val {
    let c = attn_place(far);
    match l.rows {
        Rows::All(n) => Val::AllRows { visible: n },
        Rows::Scored(topk) => Val::Top {
            batch: l.batch,
            visible: l.visible,
            topk,
            x: Box::new(
                Val::Scores {
                    batch: l.batch,
                    visible: l.visible,
                    q: Box::new(
                        Val::IdxTurned {
                            x: Box::new(
                                times(
                                    c,
                                    Weight::IdxQB,
                                    rows_of(s.n_lora_q),
                                    Width { n: s.n_idx_head, each: s.n_idx_dim },
                                    query_rank(s, far, x),
                                ),
                            ),
                        },
                    ),
                    weights: Box::new(
                        applied(
                            c,
                            Weight::IdxProj,
                            How::Rows { from: s.n_embd, to: s.n_idx_head, rows: 1 },
                            over(far, rows_of(s.n_embd), cur),
                        ),
                    ),
                    keys: Box::new(keys),
                },
            ),
        },
        Rows::Reused(_) => live,
    }
}

/// How many they are.
pub open spec fn selected(r: Rows) -> u32 {
    match r {
        Rows::All(n) => n,
        Rows::Scored(n) => n,
        Rows::Reused(n) => n,
    }
}

/// The live selection, on the card that reads it.
pub open spec fn brought(l: LatentFacts, live: Val) -> Val {
    match l.hop {
        Some(len) => shifted(rows_of(len), live),
        None => live,
    }
}

proof fn lemma_hop(l: LatentFacts, m: Mem)
    ensures
        ({
            let r = run(graph::hop_ops(l), 0, m);
            &&& r.card == m.card
            &&& r.at(Buf::Selected) == brought(l, m.at(Buf::Selected))
            &&& same_but(r, m, set![Cell::At(Buf::Selected)])
        }),
{
    reveal(step);
    reveal_with_fuel(run, 2);
}

proof fn lemma_latent(s: &Shape, far: bool, m: Mem)
    requires
        m.card == attn_place(far),
    ensures
        ({
            let x = m.at(graph::attn_input(far));
            let r = run(graph::latent_ops(s, far), 0, m);
            &&& r.card == m.card
            &&& r.at(Buf::QRankNorm) == query_rank(s, far, x)
            &&& r.at(Buf::Q) == latent_queries(s, far, x)
            &&& r.cells[Cell::LatentRows] == latent_row(s, far, x)
            &&& same_but(
                r,
                m,
                set![
                    Cell::At(Buf::QRank),
                    Cell::At(Buf::QRankNorm),
                    Cell::At(Buf::Q),
                    Cell::At(Buf::KvRaw),
                    Cell::At(Buf::KvNorm),
                    Cell::LatentRows,
                ],
            )
        }),
{
    let ops = graph::latent_ops(s, far);
    let m1 = m.made(Buf::QRank, Weight::QA, How::Product { inner: rows_of(s.n_embd), outer: rows_of(s.n_lora_q) }, graph::attn_input(far));
    assert(step(m, ops[0]) == m1) by {
        reveal(step);
    }
    let m2 = m1.made(Buf::QRankNorm, Weight::QANorm, How::Norm(rows_of(s.n_lora_q)), Buf::QRank);
    assert(step(m1, ops[1]) == m2) by {
        reveal(step);
    }
    let m3 = m2.made(Buf::Q, Weight::QB, How::Product { inner: rows_of(s.n_lora_q), outer: Width { n: s.n_head, each: (s.qk_nope + s.qk_rope) as u32 } }, Buf::QRankNorm);
    assert(step(m2, ops[2]) == m3) by {
        reveal(step);
    }
    let m4 = m3.put(Buf::Q, Val::TailTurned { x: Box::new(m3.at(Buf::Q)) });
    assert(step(m3, ops[3]) == m4) by {
        reveal(step);
    }
    let m5 = m4.made(Buf::KvRaw, Weight::KvA, How::Product { inner: rows_of(s.n_embd), outer: rows_of((s.n_kv_lora + s.qk_rope) as u32) }, graph::attn_input(far));
    assert(step(m4, ops[4]) == m5) by {
        reveal(step);
    }
    let m6 = m5.put(Buf::KvNorm, Val::LatentNormed { x: Box::new(m5.at(Buf::KvRaw)) });
    assert(step(m5, ops[5]) == m6) by {
        reveal(step);
    }
    let m7 = m6.keep(Cell::LatentRows, Val::Latent { norm: Box::new(m6.at(Buf::KvNorm)), raw: Box::new(m6.at(Buf::KvRaw)) });
    assert(step(m6, ops[6]) == m7) by {
        reveal(step);
    }
    assert(run(ops, 0, m) == m7) by {
        reveal_with_fuel(run, 8);
    }
}

proof fn lemma_idx_keys(s: &Shape, l: LatentFacts, far: bool, m: Mem)
    ensures
        ({
            let r = run(graph::key_ops(s, l, far), 0, m);
            &&& r.card == m.card
            &&& r.cells[Cell::IdxKeys] == (if l.keeps_keys {
                times(
                    m.card,
                    Weight::IdxK,
                    rows_of(s.n_embd),
                    rows_of(s.n_idx_dim),
                    m.at(graph::attn_input(far)),
                )
            } else {
                m.cells[Cell::IdxKeys]
            })
            &&& same_but(r, m, set![Cell::At(Buf::IdxKey), Cell::IdxKeys])
        }),
{
    reveal(step);
    reveal_with_fuel(run, 3);
}

proof fn lemma_select(s: &Shape, l: LatentFacts, far: bool, x: Val, m: Mem)
    requires
        m.card == attn_place(far),
        m.at(Buf::QRankNorm) == query_rank(s, far, x),
    ensures
        ({
            let r = run(graph::select_ops(s, l, far), 0, m);
            &&& r.card == m.card
            &&& r.at(Buf::Selected) == selection(
                s,
                l,
                far,
                m.at(Buf::Cur),
                x,
                m.cells[Cell::IdxKeys],
                m.at(Buf::Selected),
            )
            &&& same_but(
                r,
                m,
                set![
                    Cell::At(Buf::IdxQuery),
                    Cell::At(Buf::FarOut),
                    Cell::At(Buf::IdxWeights),
                    Cell::At(Buf::IdxScores),
                    Cell::At(Buf::Selected),
                ],
            )
        }),
{
    match l.rows {
        Rows::All(n) => {
        let ops = graph::select_ops(s, l, far);
        let m1 = m.put(Buf::Selected, Val::AllRows { visible: n });
        assert(step(m, ops[0]) == m1) by {
            reveal(step);
        }
        assert(run(ops, 0, m) == m1) by {
            reveal_with_fuel(run, 2);
        }
        },
        Rows::Scored(topk) => {
    if far {
        let ops = graph::select_ops(s, l, far);
        let m1 = m.made(Buf::IdxQuery, Weight::IdxQB, How::Product { inner: rows_of(s.n_lora_q), outer: Width { n: s.n_idx_head, each: s.n_idx_dim } }, Buf::QRankNorm);
        assert(step(m, ops[0]) == m1) by {
            reveal(step);
        }
        let m2 = m1.put(Buf::IdxQuery, Val::IdxTurned { x: Box::new(m1.at(Buf::IdxQuery)) });
        assert(step(m1, ops[1]) == m2) by {
            reveal(step);
        }
        let m3 = m2.put(Buf::FarOut, shifted(rows_of(s.n_embd), m2.at(Buf::Cur)));
        assert(step(m2, ops[2]) == m3) by {
            reveal(step);
        }
        let m4 = m3.made(Buf::IdxWeights, Weight::IdxProj, How::Rows { from: s.n_embd, to: s.n_idx_head, rows: 1 }, Buf::FarOut);
        assert(step(m3, ops[3]) == m4) by {
            reveal(step);
        }
        let m5 = m4.put(Buf::IdxScores, Val::Scores { batch: l.batch, visible: l.visible, q: Box::new(m4.at(Buf::IdxQuery)), weights: Box::new(m4.at(Buf::IdxWeights)), keys: Box::new(m4.cells[Cell::IdxKeys]) });
        assert(step(m4, ops[4]) == m5) by {
            reveal(step);
        }
        let m6 = m5.put(Buf::Selected, Val::Top { batch: l.batch, visible: l.visible, topk, x: Box::new(m5.at(Buf::IdxScores)) });
        assert(step(m5, ops[5]) == m6) by {
            reveal(step);
        }
        assert(run(ops, 0, m) == m6) by {
            reveal_with_fuel(run, 7);
        }
    } else {
        let ops = graph::select_ops(s, l, far);
        let m1 = m.made(Buf::IdxQuery, Weight::IdxQB, How::Product { inner: rows_of(s.n_lora_q), outer: Width { n: s.n_idx_head, each: s.n_idx_dim } }, Buf::QRankNorm);
        assert(step(m, ops[0]) == m1) by {
            reveal(step);
        }
        let m2 = m1.put(Buf::IdxQuery, Val::IdxTurned { x: Box::new(m1.at(Buf::IdxQuery)) });
        assert(step(m1, ops[1]) == m2) by {
            reveal(step);
        }
        let m3 = m2.made(Buf::IdxWeights, Weight::IdxProj, How::Rows { from: s.n_embd, to: s.n_idx_head, rows: 1 }, Buf::Cur);
        assert(step(m2, ops[2]) == m3) by {
            reveal(step);
        }
        let m4 = m3.put(Buf::IdxScores, Val::Scores { batch: l.batch, visible: l.visible, q: Box::new(m3.at(Buf::IdxQuery)), weights: Box::new(m3.at(Buf::IdxWeights)), keys: Box::new(m3.cells[Cell::IdxKeys]) });
        assert(step(m3, ops[3]) == m4) by {
            reveal(step);
        }
        let m5 = m4.put(Buf::Selected, Val::Top { batch: l.batch, visible: l.visible, topk, x: Box::new(m4.at(Buf::IdxScores)) });
        assert(step(m4, ops[4]) == m5) by {
            reveal(step);
        }
        assert(run(ops, 0, m) == m5) by {
            reveal_with_fuel(run, 6);
        }
    }
        },
        Rows::Reused(_) => {
        let ops = graph::select_ops(s, l, far);
        assert(run(ops, 0, m) == m) by {
            reveal_with_fuel(run, 1);
        }
        },
    }
}

proof fn lemma_latent_attend(l: LatentFacts, m: Mem)
    ensures
        ({
            let r = run(graph::latent_attend_ops(l), 0, m);
            &&& r.card == m.card
            &&& r.at(Buf::Heads) == (Val::AttendedLatent {
                on: m.card,
                rows: selected(l.rows),
                q: Box::new(m.at(Buf::Q)),
                low: Box::new(Val::LowRank { on: m.card, q: Box::new(m.at(Buf::Q)) }),
                sel: Box::new(m.at(Buf::Selected)),
                cache: Box::new(m.cells[Cell::LatentRows]),
            })
            &&& same_but(r, m, set![Cell::At(Buf::QkLow), Cell::At(Buf::Heads)])
        }),
{
    reveal(step);
    reveal_with_fuel(run, 3);
}

/// What the attention half of a latent-attention layer computes. The latent
/// row and the selection key join their caches; the queries attend to the
/// selected rows of the cache with that row in it; and the stream gains the
/// projection of the heads.
pub proof fn mla_half_computes_attention(s: &Shape, l: LatentFacts, f: AttnFacts, m: Mem)
    requires
        m.card == Place::Primary,
    ensures
        ({
            let r = run(graph::mla_ops(s, l, f), 0, m);
            let cur = m.at(Buf::Cur);
            let x = attn_in(s, f.far, cur);
            let c = attn_place(f.far);
            let keys = if l.keeps_keys {
                times(c, Weight::IdxK, rows_of(s.n_embd), rows_of(s.n_idx_dim), x)
            } else {
                m.cells[Cell::IdxKeys]
            };
            let live = brought(l, m.at(Buf::Selected));
            let sel = selection(s, l, f.far, cur, x, keys, live);
            let q = latent_queries(s, f.far, x);
            let heads = Val::AttendedLatent {
                on: c,
                rows: selected(l.rows),
                q: Box::new(q),
                low: Box::new(Val::LowRank { on: c, q: Box::new(q) }),
                sel: Box::new(sel),
                cache: Box::new(latent_row(s, f.far, x)),
            };
            let out = projected(s, f.far, Width { n: s.n_head, each: s.value_mla }, heads);
            &&& r.card == Place::Primary
            &&& r.at(Buf::Cur) == cur
            &&& r.cells[Cell::LatentRows] == latent_row(s, f.far, x)
            &&& r.cells[Cell::IdxKeys] == keys
            &&& r.at(Buf::Selected) == sel
            &&& r.at(Buf::AfterAttn) == behind_attn(s, f, cur, out)
            &&& r.at(Buf::Normed) == applied(
                Place::Primary,
                Weight::FfnNorm,
                How::Norm(rows_of(s.n_embd)),
                behind_attn(s, f, cur, out),
            )
        }),
{
    let heads = Width { n: s.n_head, each: s.value_mla };
    let e = Seq::<Op>::empty();
    let a1 = e + graph::hop_ops(l);
    let a2 = a1 + graph::enter_ops(s, f.far);
    let a3 = a2 + graph::latent_ops(s, f.far);
    let a4 = a3 + graph::key_ops(s, l, f.far);
    let a5 = a4 + graph::select_ops(s, l, f.far);
    let a6 = a5 + graph::latent_attend_ops(l);
    let a7 = a6 + graph::leave_ops(s, heads, f.far);
    lists_run_in_order(e, graph::hop_ops(l), m);
    lists_run_in_order(a1, graph::enter_ops(s, f.far), m);
    lists_run_in_order(a2, graph::latent_ops(s, f.far), m);
    lists_run_in_order(a3, graph::key_ops(s, l, f.far), m);
    lists_run_in_order(a4, graph::select_ops(s, l, f.far), m);
    lists_run_in_order(a5, graph::latent_attend_ops(l), m);
    lists_run_in_order(a6, graph::leave_ops(s, heads, f.far), m);
    lists_run_in_order(a7, graph::residual_ops(s, f), m);
    lemma_hop(l, m);
    lemma_enter(s, f.far, run(a1, 0, m));
    lemma_latent(s, f.far, run(a2, 0, m));
    lemma_idx_keys(s, l, f.far, run(a3, 0, m));
    lemma_select(s, l, f.far, attn_in(s, f.far, m.at(Buf::Cur)), run(a4, 0, m));
    lemma_latent_attend(l, run(a5, 0, m));
    lemma_leave(s, heads, f.far, run(a6, 0, m));
    lemma_residual(s, f, run(a7, 0, m));
}

/// A gated feed-forward: the activation of one product times the other,
/// projected back.
pub open spec fn gated_ffn(
    s: &Shape,
    w: u32,
    gate: Weight,
    up: Weight,
    down: Weight,
    x: Val,
) -> Val {
    let pr = Place::Primary;
    times(
        pr,
        down,
        rows_of(w),
        rows_of(s.n_embd),
        gated(
            rows_of(w),
            times(pr, gate, rows_of(s.n_embd), rows_of(w), x),
            times(pr, up, rows_of(s.n_embd), rows_of(w), x),
        ),
    )
}

pub open spec fn scaled(by: Option<u32>, x: Val) -> Val {
    match by {
        Some(bits) => Val::Scaled { bits, x: Box::new(x) },
        None => x,
    }
}

pub(crate) proof fn lemma_gated(s: &Shape, w: u32, dst: Buf, gate: Weight, up: Weight, down: Weight, m: Mem)
    requires
        dst == Buf::FfnOut || dst == Buf::SharedOut,
        m.card == Place::Primary,
    ensures
        ({
            let r = run(graph::gated_ops(s, w, dst, gate, up, down), 0, m);
            &&& r.card == m.card
            &&& r.at(dst) == gated_ffn(s, w, gate, up, down, m.at(Buf::Normed))
            &&& same_but(
                r,
                m,
                set![
                    Cell::At(Buf::GateAct),
                    Cell::At(Buf::UpAct),
                    Cell::At(Buf::FfnMid),
                    Cell::At(dst),
                ],
            )
        }),
{
    let ops = graph::gated_ops(s, w, dst, gate, up, down);
    let m1 = m.made(Buf::GateAct, gate, How::Product { inner: rows_of(s.n_embd), outer: rows_of(w) }, Buf::Normed);
    assert(step(m, ops[0]) == m1) by {
        reveal(step);
    }
    let m2 = m1.made(Buf::UpAct, up, How::Product { inner: rows_of(s.n_embd), outer: rows_of(w) }, Buf::Normed);
    assert(step(m1, ops[1]) == m2) by {
        reveal(step);
    }
    let m3 = m2.put(Buf::FfnMid, gated(rows_of(w), m2.at(Buf::GateAct), m2.at(Buf::UpAct)));
    assert(step(m2, ops[2]) == m3) by {
        reveal(step);
    }
    let m4 = m3.made(dst, down, How::Product { inner: rows_of(w), outer: rows_of(s.n_embd) }, Buf::FfnMid);
    assert(step(m3, ops[3]) == m4) by {
        reveal(step);
    }
    assert(run(ops, 0, m) == m4) by {
        reveal_with_fuel(run, 5);
    }
}

pub(crate) proof fn lemma_scale(buf: Buf, by: Option<u32>, m: Mem)
    ensures
        ({
            let r = run(graph::scale_ops(buf, by), 0, m);
            &&& r.card == m.card
            &&& r.at(buf) == scaled(by, m.at(buf))
            &&& same_but(r, m, set![Cell::At(buf)])
        }),
{
    reveal(step);
    reveal_with_fuel(run, 2);
}

pub(crate) proof fn lemma_mlp_conv(s: &Shape, on: bool, m: Mem)
    requires
        m.card == Place::Primary,
    ensures
        ({
            let r = run(graph::mlp_conv_ops(s, on), 0, m);
            &&& r.card == m.card
            &&& r.at(Buf::FfnOut) == filtered(
                on,
                m.card,
                Weight::ConvMlp,
                3,
                rows_of(s.n_embd),
                m.at(Buf::FfnOut),
            )
            &&& same_but(r, m, set![Cell::At(Buf::FfnOut), Cell::At(Buf::Conv)])
        }),
{
    reveal(step);
    reveal_with_fuel(run, 3);
}

/// What the feed-forward half of a dense layer computes: the stream behind
/// attention, plus the gated feed-forward of its norm, scaled and convolved
/// where the layer does.
pub proof fn dense_half_computes_ffn(s: &Shape, f: FfnFacts, m: Mem)
    requires
        m.card == Place::Primary,
    ensures
        ({
            let r = run(graph::dense_ops(s, f), 0, m);
            let ffn = gated_ffn(
                s,
                s.n_ff_dense,
                Weight::FfnGate,
                Weight::FfnUp,
                Weight::FfnDown,
                m.at(Buf::Normed),
            );
            &&& r.card == Place::Primary
            &&& r.at(Buf::Cur) == sum(
                m.at(Buf::AfterAttn),
                filtered(
                    f.conv,
                    Place::Primary,
                    Weight::ConvMlp,
                    3,
                    rows_of(s.n_embd),
                    scaled(f.scale, ffn),
                ),
            )
        }),
{
    let e = Seq::<Op>::empty();
    let g = graph::gated_ops(
        s,
        s.n_ff_dense,
        Buf::FfnOut,
        Weight::FfnGate,
        Weight::FfnUp,
        Weight::FfnDown,
    );
    let a1 = e + g;
    let a2 = a1 + graph::scale_ops(Buf::FfnOut, f.scale);
    let a3 = a2 + graph::mlp_conv_ops(s, f.conv);
    let last = seq![Op::Add { dst: Buf::Cur, a: Buf::AfterAttn, b: Buf::FfnOut }];
    lists_run_in_order(e, g, m);
    lists_run_in_order(a1, graph::scale_ops(Buf::FfnOut, f.scale), m);
    lists_run_in_order(a2, graph::mlp_conv_ops(s, f.conv), m);
    lists_run_in_order(a3, last, m);
    lemma_gated(
        s,
        s.n_ff_dense,
        Buf::FfnOut,
        Weight::FfnGate,
        Weight::FfnUp,
        Weight::FfnDown,
        m,
    );
    lemma_scale(Buf::FfnOut, f.scale, run(a1, 0, m));
    lemma_mlp_conv(s, f.conv, run(a2, 0, m));
    assert(graph::dense_ops(s, f) == a3 + last);
    reveal(step);
    reveal_with_fuel(run, 2);
}

} // verus!
