//! The kernels of a layer, as a list of launches in order.
//!
//! Widths are pairs: so many units of so many elements per token.

use vstd::prelude::*;

use crate::attn::{GqaPlan, Rotation, Rows, RouterPlan};
use crate::resolve::SlotUse;
use crate::shape::{Shape, F32_ONE};

verus! {

/// A buffer of a layer's run.
#[derive(Clone, Copy, Debug, PartialEq, Eq, Hash, Structural)]
pub enum Buf {
    /// The residual stream.
    Cur,
    Normed,
    /// The normed rows on the attention card.
    FarIn,
    Q,
    K,
    V,
    KvConv,
    RotK,
    RotQ,
    RelQuery,
    RelBias,
    Heads,
    HeadGates,
    /// The attention output on the attention card.
    FarOut,
    AttnOut,
    Conv,
    AfterAttn,
    QRank,
    QRankNorm,
    KvRaw,
    KvNorm,
    QkLow,
    Selected,
    IdxKey,
    IdxQuery,
    IdxWeights,
    IdxScores,
    GateAct,
    UpAct,
    FfnMid,
    FfnOut,
    RouterLogits,
    Picks,
    Weights,
    PredLogits,
    PredPicks,
    PredWeights,
    SharedOut,
    /// The routed experts' input in quantized blocks.
    Blocks,
    ExpertMid,
    MidBlocks,
    SlotSums,
    MoeOut,
    /// The processor lanes' sum, uploaded.
    LaneOut,
    /// A partial sum brought back from another card.
    Partial,
    TierIn(usize),
    TierWeights(usize),
    TierBlocks(usize),
    TierMid(usize),
    TierMidBlocks(usize),
    TierOut(usize),
    TierSharedOut(usize),
    /// A buffer of a hybrid layer, on the first card or the second.
    Half(bool, Part),
    /// Rows on their way to the second card.
    Link,
    /// Rows on their way back.
    LinkBack,
    /// One number per row that gates the shared expert.
    SharedGate,
}

/// Buffers of a hybrid layer that each card has.
#[derive(Clone, Copy, Debug, PartialEq, Eq, Hash, Structural)]
pub enum Part {
    In,
    /// The input in quantized blocks.
    Blocks,
    Qkv,
    Z,
    Decay,
    Beta,
    /// Both coefficients of a lone row.
    Packed,
    ConvOut,
    Gq,
    Gk,
    Gv,
    Delta,
    Mixed,
    /// The middle rows in quantized blocks.
    MidBlocks,
    Out,
    QueryGate,
    Q,
    Gate,
    K,
    V,
    RotK,
    RotQ,
    Heads,
    GateAct,
    UpAct,
    Mid,
    FfnOut,
    /// What the other card sent back.
    Recv,
}

/// A weight of the layer.
#[derive(Clone, Copy, Debug, PartialEq, Eq, Hash, Structural)]
pub enum Weight {
    AttnNorm,
    AttnQ,
    AttnK,
    AttnV,
    BiasQ,
    BiasK,
    BiasV,
    BiasOut,
    ConvK,
    ConvV,
    ConvAttn,
    ConvMlp,
    QNorm,
    KNorm,
    /// The fixed rotation of packed caches.
    Rotate,
    Rel,
    RelProj,
    HeadGate,
    AttnOutput,
    QA,
    QANorm,
    QB,
    KvA,
    KvANorm,
    KB,
    IdxK,
    IdxQB,
    IdxProj,
    PostAttnNorm,
    FfnNorm,
    FfnGate,
    FfnUp,
    FfnDown,
    Router,
    RouterNorm,
    RouterBias,
    DownScale,
    NextRouter,
    SharedGate,
    SharedUp,
    SharedDown,
    PostSharedNorm,
    PreRoutedNorm,
    PostRoutedNorm,
    PostFfnNorm,
    /// Delta projections: of decay, of beta, and of both.
    Decay,
    Beta,
    Coeffs,
    SsmNorm,
    SharedGateIn,
    Qkv,
    Z,
    SsmOut,
    MixQ,
    MixK,
    MixV,
    MixOut,
    ResidentGate,
    ResidentUp,
    ResidentDown,
}

/// A card, by its part in the layer.
#[derive(Clone, Copy, Debug, PartialEq, Eq, Structural)]
pub enum Place {
    Primary,
    Attn,
    Tier(usize),
    /// The second card of a halved layer.
    Second,
}

/// Units of elements per token.
#[derive(Clone, Copy, Debug, PartialEq, Eq, Structural)]
pub struct Width {
    pub n: u32,
    pub each: u32,
}

/// Which expert references a launch goes by.
#[derive(Clone, Copy, Debug, PartialEq, Eq, Structural)]
pub enum Refs {
    /// The routed slots of the primary.
    Routed,
    /// The slots of the shared bank.
    Shared,
    /// The lane's own slots, to compare with.
    Lane,
    /// The routed slots of a tier.
    Tier(usize),
    /// The shared slots of a tier.
    TierShared(usize),
}

/// One launch.
#[derive(Clone, Copy, Debug, PartialEq, Eq, Structural)]
pub enum Op {
    /// What follows runs on this card.
    On(Place),
    Norm { dst: Buf, src: Buf, w: Weight, width: Width },
    NormIn { buf: Buf, w: Weight },
    HeadNorm { buf: Buf, weight: Option<Weight>, width: Width },
    /// Quantized weights.
    Mul { dst: Buf, w: Weight, src: Buf, inner: Width, outer: Width },
    /// Float weights, `rows` rows per token.
    MulF { dst: Buf, w: Weight, src: Buf, from: u32, to: u32, rows: u32 },
    Bias { buf: Buf, w: Weight, width: Width },
    Copy { dst: Buf, src: Buf, width: Width },
    /// A short convolution with its own rolling state.
    Conv { dst: Buf, src: Buf, w: Weight, state: u32, width: Width },
    Rope { buf: Buf, width: Width, by: Rotation },
    AppendK { src: Buf },
    AppendV { src: Buf },
    Attend { src: Buf, rel: Option<Buf> },
    GateHeads,
    RopeTail { buf: Buf },
    LatentNorm,
    StoreLatent,
    StoreIdx,
    /// Every visible row is selected.
    SelectAll { visible: u32 },
    RopeIdx,
    Score { batch: bool, visible: u32 },
    TopK { batch: bool, visible: u32, topk: u32 },
    /// Bring the selection over to the card that reads it.
    HopSelection { len: u32 },
    LowRank,
    AttendLatent { rows: u32 },
    Add { dst: Buf, a: Buf, b: Buf },
    AddIn { dst: Buf, src: Buf },
    /// Scale by float bits.
    Scale { buf: Buf, bits: u32 },
    Zero { buf: Buf },
    Swiglu { dst: Buf, a: Buf, b: Buf, width: Width },
    Select { pred: bool },
    ScaleWeights,
    Quantize { dst: Buf, src: Buf, width: Width },
    Pair { dst: Buf, refs: Refs, grouped: bool },
    Down { dst: Buf, refs: Refs, grouped: bool },
    DownBias { dst: Buf, refs: Refs },
    SumSlots,
    /// Read the output back, to compare with the lanes.
    ReadBack,
    /// Upload expert references.
    PutRefs(Refs),
    /// Upload the processor lanes' sum.
    PutLanes,
    /// A product by a weight in either encoding: it reads the rows, or their
    /// quantized blocks.
    Mat { dst: Buf, w: Weight, src: Buf, blocks: Buf, kq: bool, inner: Width, outer: Width },
    /// Delta coefficients from their raw products.
    Coeffs { far: bool, packed: bool },
    ConvRows { far: bool },
    SplitRows { far: bool },
    L2 { buf: Buf, width: Width },
    /// The delta rule over the rolling state.
    DeltaRule { far: bool, packed: bool },
    /// Part queries from their gates.
    SplitGate { far: bool },
    GateRows { far: bool },
    /// Rotation by the layer's position, or by one that lies on the card.
    RopeHalf { buf: Buf, width: Width, on_card: bool },
    AppendHalf { far: bool, key: bool, src: Buf, on_card: bool },
    AttendHalf { far: bool, src: Buf, on_card: bool },
    Send { src: Buf, back: bool },
    Recv { dst: Buf, back: bool },
    /// Keep what a replay of the delta state needs.
    Stash,
    /// Keep the stream for a draft: in the ring, or staged beside it.
    Capture { column: usize, staged: bool },
    GateShared,
    /// Resolve and run the routed experts.
    Experts,
}

/// One unit of `each` elements.
pub open spec fn flat(each: u32) -> Width {
    Width { n: 1, each }
}

fn one(each: u32) -> (w: Width)
    ensures
        w == flat(each),
{
    Width { n: 1, each }
}

/// The buffers that the expert launches of `refs` read: weights and input.
pub open spec fn pair_inputs(refs: Refs) -> (Buf, Buf) {
    match refs {
        Refs::Routed | Refs::Shared | Refs::Lane => (Buf::Weights, Buf::Blocks),
        Refs::Tier(t) | Refs::TierShared(t) => (Buf::TierWeights(t), Buf::TierBlocks(t)),
    }
}

/// The quantized middle rows of the expert launches of `refs`.
pub open spec fn mid_blocks(refs: Refs) -> Buf {
    match refs {
        Refs::Routed | Refs::Shared | Refs::Lane => Buf::MidBlocks,
        Refs::Tier(t) | Refs::TierShared(t) => Buf::TierMidBlocks(t),
    }
}

/// The buffers a launch reads. Caches, weights and rolling state outlive the
/// layer and are not listed.
pub open spec fn reads(op: Op) -> (Option<Buf>, Option<Buf>, Option<Buf>, Option<Buf>, Option<Buf>) {
    match op {
        Op::On(_) => (None, None, None, None, None),
        Op::Norm { src, .. } => (Some(src), None, None, None, None),
        Op::NormIn { buf, .. } => (Some(buf), None, None, None, None),
        Op::HeadNorm { buf, .. } => (Some(buf), None, None, None, None),
        Op::Mul { src, .. } => (Some(src), None, None, None, None),
        Op::MulF { src, .. } => (Some(src), None, None, None, None),
        Op::Bias { buf, .. } => (Some(buf), None, None, None, None),
        Op::Copy { src, .. } => (Some(src), None, None, None, None),
        Op::Conv { src, .. } => (Some(src), None, None, None, None),
        Op::Rope { buf, .. } => (Some(buf), None, None, None, None),
        Op::AppendK { src } => (Some(src), None, None, None, None),
        Op::AppendV { src } => (Some(src), None, None, None, None),
        Op::Attend { src, rel } => (Some(src), rel, None, None, None),
        Op::GateHeads => (Some(Buf::Heads), Some(Buf::HeadGates), None, None, None),
        Op::RopeTail { buf } => (Some(buf), None, None, None, None),
        Op::LatentNorm => (Some(Buf::KvRaw), None, None, None, None),
        Op::StoreLatent => (Some(Buf::KvNorm), Some(Buf::KvRaw), None, None, None),
        Op::StoreIdx => (Some(Buf::IdxKey), None, None, None, None),
        Op::SelectAll { .. } => (None, None, None, None, None),
        Op::RopeIdx => (Some(Buf::IdxQuery), None, None, None, None),
        Op::Score { .. } => (Some(Buf::IdxQuery), Some(Buf::IdxWeights), None, None, None),
        Op::TopK { .. } => (Some(Buf::IdxScores), None, None, None, None),
        Op::HopSelection { .. } => (Some(Buf::Selected), None, None, None, None),
        Op::LowRank => (Some(Buf::Q), None, None, None, None),
        Op::AttendLatent { .. } => (Some(Buf::Q), Some(Buf::QkLow), Some(Buf::Selected), None, None),
        Op::Add { a, b, .. } => (Some(a), Some(b), None, None, None),
        Op::AddIn { dst, src } => (Some(dst), Some(src), None, None, None),
        Op::Scale { buf, .. } => (Some(buf), None, None, None, None),
        Op::Zero { .. } => (None, None, None, None, None),
        Op::Swiglu { a, b, .. } => (Some(a), Some(b), None, None, None),
        Op::Select { pred } => (Some(if pred { Buf::PredLogits } else { Buf::RouterLogits }), None, None, None, None),
        Op::ScaleWeights => (Some(Buf::Picks), Some(Buf::Weights), None, None, None),
        Op::Quantize { src, .. } => (Some(src), None, None, None, None),
        Op::Pair { refs, .. } => (Some(pair_inputs(refs).0), Some(pair_inputs(refs).1), None, None, None),
        Op::Down { refs, .. } => (Some(mid_blocks(refs)), None, None, None, None),
        Op::DownBias { dst, refs } => (Some(dst), Some(pair_inputs(refs).0), None, None, None),
        Op::SumSlots => (Some(Buf::SlotSums), None, None, None, None),
        Op::ReadBack => (Some(Buf::MoeOut), None, None, None, None),
        Op::PutRefs(_) => (None, None, None, None, None),
        Op::PutLanes => (None, None, None, None, None),
        Op::Mat { src, blocks, kq, .. } => (Some(if kq { blocks } else { src }), None, None, None, None),
        Op::Coeffs { far, packed } => if packed {
            (Some(Buf::Half(far, Part::Packed)), None, None, None, None)
        } else {
            (
                Some(Buf::Half(far, Part::Decay)),
                Some(Buf::Half(far, Part::Beta)),
                None,
                None,
                None,
            )
        },
        Op::ConvRows { far } => (Some(Buf::Half(far, Part::Qkv)), None, None, None, None),
        Op::SplitRows { far } => (Some(Buf::Half(far, Part::ConvOut)), None, None, None, None),
        Op::L2 { buf, .. } => (Some(buf), None, None, None, None),
        Op::DeltaRule { far, packed } => (
            Some(Buf::Half(far, Part::Gq)),
            Some(Buf::Half(far, Part::Gk)),
            Some(Buf::Half(far, Part::Gv)),
            Some(Buf::Half(far, if packed { Part::Packed } else { Part::Decay })),
            if packed {
                None
            } else {
                Some(Buf::Half(far, Part::Beta))
            },
        ),
        Op::SplitGate { far } => (Some(Buf::Half(far, Part::QueryGate)), None, None, None, None),
        Op::GateRows { far } => (
            Some(Buf::Half(far, Part::Heads)),
            Some(Buf::Half(far, Part::Gate)),
            None,
            None,
            None,
        ),
        Op::RopeHalf { buf, .. } => (Some(buf), None, None, None, None),
        Op::AppendHalf { src, .. } => (Some(src), None, None, None, None),
        Op::AttendHalf { src, .. } => (Some(src), None, None, None, None),
        Op::Send { src, .. } => (Some(src), None, None, None, None),
        Op::Recv { back, .. } => (Some(if back { Buf::LinkBack } else { Buf::Link }), None, None, None, None),
        Op::Stash => (
            Some(Buf::Half(false, Part::Qkv)),
            Some(Buf::Half(false, Part::Decay)),
            Some(Buf::Half(false, Part::Beta)),
            None,
            None,
        ),
        Op::Capture { .. } => (Some(Buf::Cur), None, None, None, None),
        Op::GateShared => (Some(Buf::SharedOut), Some(Buf::SharedGate), None, None, None),
        Op::Experts => (Some(Buf::Picks), Some(Buf::Weights), Some(Buf::Half(false, Part::Blocks)), None, None),
    }
}

/// The buffers a launch writes.
pub open spec fn writes(op: Op) -> (Option<Buf>, Option<Buf>, Option<Buf>) {
    match op {
        Op::On(_) => (None, None, None),
        Op::Norm { dst, .. } => (Some(dst), None, None),
        Op::NormIn { buf, .. } => (Some(buf), None, None),
        Op::HeadNorm { buf, .. } => (Some(buf), None, None),
        Op::Mul { dst, .. } => (Some(dst), None, None),
        Op::MulF { dst, .. } => (Some(dst), None, None),
        Op::Bias { buf, .. } => (Some(buf), None, None),
        Op::Copy { dst, .. } => (Some(dst), None, None),
        Op::Conv { dst, .. } => (Some(dst), None, None),
        Op::Rope { buf, .. } => (Some(buf), None, None),
        Op::AppendK { .. } => (None, None, None),
        Op::AppendV { .. } => (None, None, None),
        Op::Attend { .. } => (Some(Buf::Heads), None, None),
        Op::GateHeads => (Some(Buf::Heads), None, None),
        Op::RopeTail { buf } => (Some(buf), None, None),
        Op::LatentNorm => (Some(Buf::KvNorm), None, None),
        Op::StoreLatent => (None, None, None),
        Op::StoreIdx => (None, None, None),
        Op::SelectAll { .. } => (Some(Buf::Selected), None, None),
        Op::RopeIdx => (Some(Buf::IdxQuery), None, None),
        Op::Score { .. } => (Some(Buf::IdxScores), None, None),
        Op::TopK { .. } => (Some(Buf::Selected), None, None),
        Op::HopSelection { .. } => (Some(Buf::Selected), None, None),
        Op::LowRank => (Some(Buf::QkLow), None, None),
        Op::AttendLatent { .. } => (Some(Buf::Heads), None, None),
        Op::Add { dst, .. } => (Some(dst), None, None),
        Op::AddIn { dst, .. } => (Some(dst), None, None),
        Op::Scale { buf, .. } => (Some(buf), None, None),
        Op::Zero { buf } => (Some(buf), None, None),
        Op::Swiglu { dst, .. } => (Some(dst), None, None),
        Op::Select { pred } => if pred {
            (Some(Buf::PredPicks), Some(Buf::PredWeights), None)
        } else {
            (Some(Buf::Picks), Some(Buf::Weights), None)
        },
        Op::ScaleWeights => (Some(Buf::Weights), None, None),
        Op::Quantize { dst, .. } => (Some(dst), None, None),
        Op::Pair { dst, .. } => (Some(dst), None, None),
        Op::Down { dst, .. } => (Some(dst), None, None),
        Op::DownBias { dst, .. } => (Some(dst), None, None),
        Op::SumSlots => (Some(Buf::MoeOut), None, None),
        Op::ReadBack => (None, None, None),
        Op::PutRefs(_) => (None, None, None),
        Op::PutLanes => (Some(Buf::LaneOut), None, None),
        Op::Mat { dst, .. } => (Some(dst), None, None),
        Op::Coeffs { far, packed } => if packed {
            (Some(Buf::Half(far, Part::Packed)), None, None)
        } else {
            (Some(Buf::Half(far, Part::Decay)), Some(Buf::Half(far, Part::Beta)), None)
        },
        Op::ConvRows { far } => (Some(Buf::Half(far, Part::ConvOut)), None, None),
        Op::SplitRows { far } => (
            Some(Buf::Half(far, Part::Gq)),
            Some(Buf::Half(far, Part::Gk)),
            Some(Buf::Half(far, Part::Gv)),
        ),
        Op::L2 { buf, .. } => (Some(buf), None, None),
        Op::DeltaRule { far, .. } => (Some(Buf::Half(far, Part::Delta)), None, None),
        Op::SplitGate { far } => (
            Some(Buf::Half(far, Part::Q)),
            Some(Buf::Half(far, Part::Gate)),
            None,
        ),
        Op::GateRows { far } => (Some(Buf::Half(far, Part::Heads)), None, None),
        Op::RopeHalf { buf, .. } => (Some(buf), None, None),
        Op::AppendHalf { .. } => (None, None, None),
        Op::AttendHalf { far, .. } => (Some(Buf::Half(far, Part::Heads)), None, None),
        Op::Send { back, .. } => (Some(if back { Buf::LinkBack } else { Buf::Link }), None, None),
        Op::Recv { dst, .. } => (Some(dst), None, None),
        Op::Stash => (None, None, None),
        Op::Capture { .. } => (None, None, None),
        Op::GateShared => (Some(Buf::SharedOut), None, None),
        Op::Experts => (Some(Buf::MoeOut), None, None),
    }
}

/// `b`, where there is one, has been written.
pub open spec fn known(have: Set<Buf>, b: Option<Buf>) -> bool {
    match b {
        Some(x) => have.contains(x),
        None => true,
    }
}

pub open spec fn with(have: Set<Buf>, b: Option<Buf>) -> Set<Buf> {
    match b {
        Some(x) => have.insert(x),
        None => have,
    }
}

/// What has been written once `op` has run.
pub open spec fn next(have: Set<Buf>, op: Op) -> Set<Buf> {
    with(with(with(have, writes(op).0), writes(op).1), writes(op).2)
}

/// What has been written once the launches from `i` on have run.
pub open spec fn after(ops: Seq<Op>, i: int, have: Set<Buf>) -> Set<Buf>
    decreases ops.len() - i,
{
    if i >= ops.len() {
        have
    } else {
        after(ops, i + 1, next(have, ops[i]))
    }
}

/// No launch from `i` on reads a buffer that has not been written.
pub open spec fn sound(ops: Seq<Op>, i: int, have: Set<Buf>) -> bool
    decreases ops.len() - i,
{
    if i >= ops.len() {
        true
    } else {
        &&& known(have, reads(ops[i]).0)
        &&& known(have, reads(ops[i]).1)
        &&& known(have, reads(ops[i]).2)
        &&& known(have, reads(ops[i]).3)
        &&& known(have, reads(ops[i]).4)
        &&& sound(ops, i + 1, next(have, ops[i]))
    }
}

/// The card that is current once the launches from `i` on have run.
pub open spec fn card_after(ops: Seq<Op>, i: int, card: Place) -> Place
    decreases ops.len() - i,
{
    if i >= ops.len() {
        card
    } else {
        card_after(
            ops,
            i + 1,
            match ops[i] {
                Op::On(c) => c,
                _ => card,
            },
        )
    }
}

/// What a run of launches needs and leaves: started with `have` on `card`,
/// it reads nothing unwritten, and ends on `card`.
pub open spec fn runs(ops: Seq<Op>, have: Set<Buf>, card: Place) -> bool {
    sound(ops, 0, have) && card_after(ops, 0, card) == card
}

proof fn lemma_shift(a: Seq<Op>, b: Seq<Op>, i: int, have: Set<Buf>, card: Place)
    requires
        0 <= i <= b.len(),
    ensures
        after(a + b, a.len() + i, have) == after(b, i, have),
        sound(a + b, a.len() + i, have) == sound(b, i, have),
        card_after(a + b, a.len() + i, card) == card_after(b, i, card),
    decreases b.len() - i,
{
    if i < b.len() {
        let op = b[i];
        assert((a + b)[a.len() + i] == op);
        lemma_shift(
            a,
            b,
            i + 1,
            next(have, op),
            match op {
                Op::On(c) => c,
                _ => card,
            },
        );
    }
}

proof fn lemma_join(a: Seq<Op>, b: Seq<Op>, i: int, have: Set<Buf>, card: Place)
    requires
        0 <= i <= a.len(),
    ensures
        after(a + b, i, have) == after(b, 0, after(a, i, have)),
        sound(a + b, i, have) == (sound(a, i, have) && sound(b, 0, after(a, i, have))),
        card_after(a + b, i, card) == card_after(b, 0, card_after(a, i, card)),
    decreases a.len() - i,
{
    if i < a.len() {
        let op = a[i];
        assert((a + b)[i] == op);
        lemma_join(
            a,
            b,
            i + 1,
            next(have, op),
            match op {
                Op::On(c) => c,
                _ => card,
            },
        );
    } else {
        lemma_shift(a, b, 0, have, card);
    }
}

pub(crate) proof fn lemma_grows(ops: Seq<Op>, i: int, have: Set<Buf>, b: Buf)
    requires
        have.contains(b),
    ensures
        after(ops, i, have).contains(b),
    decreases ops.len() - i,
{
    if i < ops.len() {
        lemma_grows(ops, i + 1, next(have, ops[i]), b);
    }
}

/// What a layer of the shared graph has.
#[derive(Clone, Copy, Debug, PartialEq, Eq, Structural)]
pub struct AttnFacts {
    /// Attention runs on another card.
    pub far: bool,
    pub bias: bool,
    pub has_v: bool,
    /// Short convolutions and a relative-position bias; the bias reaches over
    /// this many positions.
    pub relative: Option<u32>,
    pub q_norm: bool,
    pub k_norm: bool,
    pub head_gate: bool,
    /// Keys and queries are rotated before they are packed.
    pub rotate: bool,
    /// The attention output is normed inside the residual.
    pub post_norm: bool,
}

/// The input of attention on its card.
pub open spec fn attn_input(far: bool) -> Buf {
    if far {
        Buf::FarIn
    } else {
        Buf::Normed
    }
}

/// Norm the stream, and bring it to the attention card.
pub open spec fn enter_ops(s: &Shape, far: bool) -> Seq<Op> {
    let norm = Op::Norm { dst: Buf::Normed, src: Buf::Cur, w: Weight::AttnNorm, width: flat(s.n_embd) };
    if far {
        seq![
            norm,
            Op::Copy { dst: Buf::FarIn, src: Buf::Normed, width: flat(s.n_embd) },
            Op::On(Place::Attn),
        ]
    } else {
        seq![norm]
    }
}

fn push_enter(v: &mut Vec<Op>, s: &Shape, far: bool)
    ensures
        final(v)@ == old(v)@ + enter_ops(s, far),
{
    v.push(Op::Norm { dst: Buf::Normed, src: Buf::Cur, w: Weight::AttnNorm, width: one(s.n_embd) });
    if far {
        v.push(Op::Copy { dst: Buf::FarIn, src: Buf::Normed, width: one(s.n_embd) });
        v.push(Op::On(Place::Attn));
    }
    assert(v@ =~= old(v)@ + enter_ops(s, far));
}

/// Query and key projections with their biases.
pub open spec fn qk_ops(s: &Shape, p: GqaPlan, f: AttnFacts) -> Seq<Op> {
    let x = attn_input(f.far);
    let q = Width { n: p.n_head_q, each: p.head_dim };
    let kv = Width { n: p.n_head_kv, each: p.head_dim };
    let muls = seq![
        Op::Mul { dst: Buf::Q, w: Weight::AttnQ, src: x, inner: flat(s.n_embd), outer: q },
        Op::Mul { dst: Buf::K, w: Weight::AttnK, src: x, inner: flat(s.n_embd), outer: kv },
    ];
    if f.bias {
        muls + seq![
            Op::Bias { buf: Buf::Q, w: Weight::BiasQ, width: q },
            Op::Bias { buf: Buf::K, w: Weight::BiasK, width: kv },
        ]
    } else {
        muls
    }
}

fn input_of(far: bool) -> (b: Buf)
    ensures
        b == attn_input(far),
{
    if far {
        Buf::FarIn
    } else {
        Buf::Normed
    }
}

fn push_qk(v: &mut Vec<Op>, s: &Shape, p: GqaPlan, f: AttnFacts)
    ensures
        final(v)@ == old(v)@ + qk_ops(s, p, f),
{
    let x = input_of(f.far);
    let q = Width { n: p.n_head_q, each: p.head_dim };
    let kv = Width { n: p.n_head_kv, each: p.head_dim };
    v.push(Op::Mul { dst: Buf::Q, w: Weight::AttnQ, src: x, inner: one(s.n_embd), outer: q });
    v.push(Op::Mul { dst: Buf::K, w: Weight::AttnK, src: x, inner: one(s.n_embd), outer: kv });
    if f.bias {
        v.push(Op::Bias { buf: Buf::Q, w: Weight::BiasQ, width: q });
        v.push(Op::Bias { buf: Buf::K, w: Weight::BiasK, width: kv });
    }
    assert(v@ =~= old(v)@ + qk_ops(s, p, f));
}

/// Values: their own projection, or the raw keys.
pub open spec fn v_ops(s: &Shape, p: GqaPlan, f: AttnFacts) -> Seq<Op> {
    let x = attn_input(f.far);
    let kv = Width { n: p.n_head_kv, each: p.head_dim };
    let mul = Op::Mul { dst: Buf::V, w: Weight::AttnV, src: x, inner: flat(s.n_embd), outer: kv };
    if !f.has_v {
        seq![Op::Copy { dst: Buf::V, src: Buf::K, width: kv }]
    } else if f.bias {
        seq![mul, Op::Bias { buf: Buf::V, w: Weight::BiasV, width: kv }]
    } else {
        seq![mul]
    }
}

fn push_v(v: &mut Vec<Op>, s: &Shape, p: GqaPlan, f: AttnFacts)
    ensures
        final(v)@ == old(v)@ + v_ops(s, p, f),
{
    let x = input_of(f.far);
    let kv = Width { n: p.n_head_kv, each: p.head_dim };
    if !f.has_v {
        v.push(Op::Copy { dst: Buf::V, src: Buf::K, width: kv });
    } else {
        v.push(Op::Mul { dst: Buf::V, w: Weight::AttnV, src: x, inner: one(s.n_embd), outer: kv });
        if f.bias {
            v.push(Op::Bias { buf: Buf::V, w: Weight::BiasV, width: kv });
        }
    }
    assert(v@ =~= old(v)@ + v_ops(s, p, f));
}

/// Short convolutions of keys and values, before the head norms.
pub open spec fn conv_ops(p: GqaPlan, f: AttnFacts) -> Seq<Op> {
    let kv = Width { n: p.n_head_kv, each: p.head_dim };
    if f.relative is Some {
        seq![
            Op::Conv { dst: Buf::KvConv, src: Buf::K, w: Weight::ConvK, state: 0, width: kv },
            Op::Copy { dst: Buf::K, src: Buf::KvConv, width: kv },
            Op::Conv { dst: Buf::KvConv, src: Buf::V, w: Weight::ConvV, state: 1, width: kv },
            Op::Copy { dst: Buf::V, src: Buf::KvConv, width: kv },
        ]
    } else {
        Seq::empty()
    }
}

fn push_conv(v: &mut Vec<Op>, p: GqaPlan, f: AttnFacts)
    ensures
        final(v)@ == old(v)@ + conv_ops(p, f),
{
    let kv = Width { n: p.n_head_kv, each: p.head_dim };
    if f.relative.is_some() {
        v.push(Op::Conv { dst: Buf::KvConv, src: Buf::K, w: Weight::ConvK, state: 0, width: kv });
        v.push(Op::Copy { dst: Buf::K, src: Buf::KvConv, width: kv });
        v.push(Op::Conv { dst: Buf::KvConv, src: Buf::V, w: Weight::ConvV, state: 1, width: kv });
        v.push(Op::Copy { dst: Buf::V, src: Buf::KvConv, width: kv });
    }
    assert(v@ =~= old(v)@ + conv_ops(p, f));
}

/// Head norms: a norm that the layer lacks is left out.
pub open spec fn head_norm_ops(p: GqaPlan, f: AttnFacts) -> Seq<Op> {
    let q = Width { n: p.n_head_q, each: p.head_dim };
    let kv = Width { n: p.n_head_kv, each: p.head_dim };
    let a = if f.q_norm {
        seq![Op::HeadNorm { buf: Buf::Q, weight: Some(Weight::QNorm), width: q }]
    } else {
        Seq::empty()
    };
    let b = if f.k_norm {
        seq![Op::HeadNorm { buf: Buf::K, weight: Some(Weight::KNorm), width: kv }]
    } else {
        Seq::empty()
    };
    let c = if p.norm_values {
        seq![Op::HeadNorm { buf: Buf::V, weight: None, width: kv }]
    } else {
        Seq::empty()
    };
    a + b + c
}

fn push_head_norms(v: &mut Vec<Op>, p: GqaPlan, f: AttnFacts)
    ensures
        final(v)@ == old(v)@ + head_norm_ops(p, f),
{
    let q = Width { n: p.n_head_q, each: p.head_dim };
    let kv = Width { n: p.n_head_kv, each: p.head_dim };
    if f.q_norm {
        v.push(Op::HeadNorm { buf: Buf::Q, weight: Some(Weight::QNorm), width: q });
    }
    if f.k_norm {
        v.push(Op::HeadNorm { buf: Buf::K, weight: Some(Weight::KNorm), width: kv });
    }
    if p.norm_values {
        v.push(Op::HeadNorm { buf: Buf::V, weight: None, width: kv });
    }
    assert(v@ =~= old(v)@ + head_norm_ops(p, f));
}

/// Positions enter by rotation, unless a bias carries them.
pub open spec fn rope_ops(p: GqaPlan) -> Seq<Op> {
    let q = Width { n: p.n_head_q, each: p.head_dim };
    let kv = Width { n: p.n_head_kv, each: p.head_dim };
    if p.rotation is Bias {
        Seq::empty()
    } else {
        seq![
            Op::Rope { buf: Buf::Q, width: q, by: p.rotation },
            Op::Rope { buf: Buf::K, width: kv, by: p.rotation },
        ]
    }
}

fn push_rope(v: &mut Vec<Op>, p: GqaPlan)
    ensures
        final(v)@ == old(v)@ + rope_ops(p),
{
    let q = Width { n: p.n_head_q, each: p.head_dim };
    let kv = Width { n: p.n_head_kv, each: p.head_dim };
    let biased: bool = match p.rotation {
        Rotation::Bias => true,
        _ => false,
    };
    if !biased {
        v.push(Op::Rope { buf: Buf::Q, width: q, by: p.rotation });
        v.push(Op::Rope { buf: Buf::K, width: kv, by: p.rotation });
    }
    assert(v@ =~= old(v)@ + rope_ops(p));
}

/// Keys and values join their caches; packed keys are rotated first.
pub open spec fn append_ops(p: GqaPlan, f: AttnFacts) -> Seq<Op> {
    if f.rotate {
        seq![
            Op::MulF {
                dst: Buf::RotK,
                w: Weight::Rotate,
                src: Buf::K,
                from: p.head_dim,
                to: p.head_dim,
                rows: p.n_head_kv,
            },
            Op::AppendK { src: Buf::RotK },
            Op::AppendV { src: Buf::V },
        ]
    } else {
        seq![Op::AppendK { src: Buf::K }, Op::AppendV { src: Buf::V }]
    }
}

fn push_append(v: &mut Vec<Op>, p: GqaPlan, f: AttnFacts)
    ensures
        final(v)@ == old(v)@ + append_ops(p, f),
{
    if f.rotate {
        v.push(
            Op::MulF {
                dst: Buf::RotK,
                w: Weight::Rotate,
                src: Buf::K,
                from: p.head_dim,
                to: p.head_dim,
                rows: p.n_head_kv,
            },
        );
        v.push(Op::AppendK { src: Buf::RotK });
    } else {
        v.push(Op::AppendK { src: Buf::K });
    }
    v.push(Op::AppendV { src: Buf::V });
    assert(v@ =~= old(v)@ + append_ops(p, f));
}

/// The relative-position bias, and the query's rotation: the same as the
/// keys', so that scores stay what they were.
pub open spec fn score_ops(s: &Shape, p: GqaPlan, f: AttnFacts) -> Seq<Op> {
    let x = attn_input(f.far);
    let rel = match f.relative {
        Some(reach) => seq![
            Op::Mul {
                dst: Buf::RelQuery,
                w: Weight::Rel,
                src: x,
                inner: flat(s.n_embd),
                outer: Width { n: s.n_head, each: s.d_rel },
            },
            Op::MulF {
                dst: Buf::RelBias,
                w: Weight::RelProj,
                src: Buf::RelQuery,
                from: s.d_rel,
                to: reach,
                rows: s.n_head,
            },
        ],
        None => Seq::empty(),
    };
    let rot = if f.rotate {
        seq![
            Op::MulF {
                dst: Buf::RotQ,
                w: Weight::Rotate,
                src: Buf::Q,
                from: p.head_dim,
                to: p.head_dim,
                rows: p.n_head_q,
            },
        ]
    } else {
        Seq::empty()
    };
    rel + rot
}

fn push_score(v: &mut Vec<Op>, s: &Shape, p: GqaPlan, f: AttnFacts)
    ensures
        final(v)@ == old(v)@ + score_ops(s, p, f),
{
    let x = input_of(f.far);
    match f.relative {
        Some(reach) => {
            v.push(
                Op::Mul {
                    dst: Buf::RelQuery,
                    w: Weight::Rel,
                    src: x,
                    inner: one(s.n_embd),
                    outer: Width { n: s.n_head, each: s.d_rel },
                },
            );
            v.push(
                Op::MulF {
                    dst: Buf::RelBias,
                    w: Weight::RelProj,
                    src: Buf::RelQuery,
                    from: s.d_rel,
                    to: reach,
                    rows: s.n_head,
                },
            );
        },
        None => {},
    }
    if f.rotate {
        v.push(
            Op::MulF {
                dst: Buf::RotQ,
                w: Weight::Rotate,
                src: Buf::Q,
                from: p.head_dim,
                to: p.head_dim,
                rows: p.n_head_q,
            },
        );
    }
    assert(v@ =~= old(v)@ + score_ops(s, p, f));
}

/// Attention itself, and a gate for each head.
pub open spec fn attend_ops(s: &Shape, p: GqaPlan, f: AttnFacts) -> Seq<Op> {
    let attend = Op::Attend {
        src: if f.rotate {
            Buf::RotQ
        } else {
            Buf::Q
        },
        rel: if f.relative is Some {
            Some(Buf::RelBias)
        } else {
            None
        },
    };
    if f.head_gate {
        seq![
            attend,
            Op::Mul {
                dst: Buf::HeadGates,
                w: Weight::HeadGate,
                src: attn_input(f.far),
                inner: flat(s.n_embd),
                outer: flat(p.n_head_q),
            },
            Op::GateHeads,
        ]
    } else {
        seq![attend]
    }
}

fn push_attend(v: &mut Vec<Op>, s: &Shape, p: GqaPlan, f: AttnFacts)
    ensures
        final(v)@ == old(v)@ + attend_ops(s, p, f),
{
    v.push(
        Op::Attend {
            src: if f.rotate {
                Buf::RotQ
            } else {
                Buf::Q
            },
            rel: if f.relative.is_some() {
                Some(Buf::RelBias)
            } else {
                None
            },
        },
    );
    if f.head_gate {
        v.push(
            Op::Mul {
                dst: Buf::HeadGates,
                w: Weight::HeadGate,
                src: input_of(f.far),
                inner: one(s.n_embd),
                outer: one(p.n_head_q),
            },
        );
        v.push(Op::GateHeads);
    }
    assert(v@ =~= old(v)@ + attend_ops(s, p, f));
}

/// The output projection on attention's card, and the way back.
pub open spec fn leave_ops(s: &Shape, heads: Width, far: bool) -> Seq<Op> {
    if far {
        seq![
            Op::Mul {
                dst: Buf::FarOut,
                w: Weight::AttnOutput,
                src: Buf::Heads,
                inner: heads,
                outer: flat(s.n_embd),
            },
            Op::Copy { dst: Buf::AttnOut, src: Buf::FarOut, width: flat(s.n_embd) },
            Op::On(Place::Primary),
        ]
    } else {
        seq![
            Op::Mul {
                dst: Buf::AttnOut,
                w: Weight::AttnOutput,
                src: Buf::Heads,
                inner: heads,
                outer: flat(s.n_embd),
            },
        ]
    }
}

fn push_leave(v: &mut Vec<Op>, s: &Shape, heads: Width, far: bool)
    ensures
        final(v)@ == old(v)@ + leave_ops(s, heads, far),
{
    if far {
        v.push(
            Op::Mul {
                dst: Buf::FarOut,
                w: Weight::AttnOutput,
                src: Buf::Heads,
                inner: heads,
                outer: one(s.n_embd),
            },
        );
        v.push(Op::Copy { dst: Buf::AttnOut, src: Buf::FarOut, width: one(s.n_embd) });
        v.push(Op::On(Place::Primary));
    } else {
        v.push(
            Op::Mul {
                dst: Buf::AttnOut,
                w: Weight::AttnOutput,
                src: Buf::Heads,
                inner: heads,
                outer: one(s.n_embd),
            },
        );
    }
    assert(v@ =~= old(v)@ + leave_ops(s, heads, far));
}

/// The output bias, where attention stays on the primary.
pub open spec fn out_bias_ops(s: &Shape, f: AttnFacts) -> Seq<Op> {
    if f.bias && !f.far {
        seq![Op::Bias { buf: Buf::AttnOut, w: Weight::BiasOut, width: flat(s.n_embd) }]
    } else {
        Seq::empty()
    }
}

fn push_out_bias(v: &mut Vec<Op>, s: &Shape, f: AttnFacts)
    ensures
        final(v)@ == old(v)@ + out_bias_ops(s, f),
{
    if f.bias && !f.far {
        v.push(Op::Bias { buf: Buf::AttnOut, w: Weight::BiasOut, width: one(s.n_embd) });
    }
    assert(v@ =~= old(v)@ + out_bias_ops(s, f));
}

/// What follows any attention: the norm and the convolution of its output,
/// the residual, and the norm before the feed-forward.
pub open spec fn residual_ops(s: &Shape, f: AttnFacts) -> Seq<Op> {
    let post = if f.post_norm {
        seq![Op::NormIn { buf: Buf::AttnOut, w: Weight::PostAttnNorm }]
    } else {
        Seq::empty()
    };
    let conv = if f.relative is Some {
        seq![
            Op::Conv {
                dst: Buf::Conv,
                src: Buf::AttnOut,
                w: Weight::ConvAttn,
                state: 2,
                width: flat(s.n_embd),
            },
            Op::Copy { dst: Buf::AttnOut, src: Buf::Conv, width: flat(s.n_embd) },
        ]
    } else {
        Seq::empty()
    };
    post + conv + seq![
        Op::Add { dst: Buf::AfterAttn, a: Buf::Cur, b: Buf::AttnOut },
        Op::Norm { dst: Buf::Normed, src: Buf::AfterAttn, w: Weight::FfnNorm, width: flat(s.n_embd) },
    ]
}

fn push_residual(v: &mut Vec<Op>, s: &Shape, f: AttnFacts)
    ensures
        final(v)@ == old(v)@ + residual_ops(s, f),
{
    if f.post_norm {
        v.push(Op::NormIn { buf: Buf::AttnOut, w: Weight::PostAttnNorm });
    }
    if f.relative.is_some() {
        v.push(
            Op::Conv {
                dst: Buf::Conv,
                src: Buf::AttnOut,
                w: Weight::ConvAttn,
                state: 2,
                width: one(s.n_embd),
            },
        );
        v.push(Op::Copy { dst: Buf::AttnOut, src: Buf::Conv, width: one(s.n_embd) });
    }
    v.push(Op::Add { dst: Buf::AfterAttn, a: Buf::Cur, b: Buf::AttnOut });
    v.push(Op::Norm { dst: Buf::Normed, src: Buf::AfterAttn, w: Weight::FfnNorm, width: one(s.n_embd) });
    assert(v@ =~= old(v)@ + residual_ops(s, f));
}

/// The attention half of a grouped-query layer.
pub open spec fn gqa_ops(s: &Shape, p: GqaPlan, f: AttnFacts) -> Seq<Op> {
    Seq::<Op>::empty() + enter_ops(s, f.far) + qk_ops(s, p, f) + v_ops(s, p, f) + conv_ops(p, f)
        + head_norm_ops(p, f) + rope_ops(p) + append_ops(p, f) + score_ops(s, p, f) + attend_ops(
        s,
        p,
        f,
    ) + leave_ops(s, Width { n: p.n_head_q, each: p.head_dim }, f.far) + out_bias_ops(s, f)
        + residual_ops(s, f)
}

/// The launches of a grouped-query layer's attention half.
pub fn plan_gqa_half(s: &Shape, p: GqaPlan, f: AttnFacts) -> (v: Vec<Op>)
    ensures
        v@ == gqa_ops(s, p, f),
{
    let mut v: Vec<Op> = Vec::new();
    push_enter(&mut v, s, f.far);
    push_qk(&mut v, s, p, f);
    push_v(&mut v, s, p, f);
    push_conv(&mut v, p, f);
    push_head_norms(&mut v, p, f);
    push_rope(&mut v, p);
    push_append(&mut v, p, f);
    push_score(&mut v, s, p, f);
    push_attend(&mut v, s, p, f);
    push_leave(&mut v, s, Width { n: p.n_head_q, each: p.head_dim }, f.far);
    push_out_bias(&mut v, s, f);
    push_residual(&mut v, s, f);
    v
}

/// Launches `a` and then `seg`: what holds of both holds of the whole.
pub(crate) proof fn lemma_step(a: Seq<Op>, seg: Seq<Op>, h0: Set<Buf>, start: Place)
    requires
        sound(a, 0, h0),
        sound(seg, 0, after(a, 0, h0)),
    ensures
        sound(a + seg, 0, h0),
        after(a + seg, 0, h0) == after(seg, 0, after(a, 0, h0)),
        card_after(a + seg, 0, start) == card_after(seg, 0, card_after(a, 0, start)),
        forall|b: Buf| after(a, 0, h0).contains(b) ==> #[trigger] after(a + seg, 0, h0).contains(b),
{
    lemma_join(a, seg, 0, h0, start);
    assert forall|b: Buf| after(a, 0, h0).contains(b) implies #[trigger] after(
        a + seg,
        0,
        h0,
    ).contains(b) by {
        lemma_grows(seg, 0, after(a, 0, h0), b);
    }
}

/// The segment reads only what is there, leaves the card alone, and writes
/// `b`.
pub(crate) open spec fn makes(seg: Seq<Op>, have: Set<Buf>, card: Place, b: Buf) -> bool {
    &&& sound(seg, 0, have)
    &&& after(seg, 0, have).contains(b)
    &&& card_after(seg, 0, card) == card
}

proof fn lemma_enter(s: &Shape, far: bool, have: Set<Buf>, card: Place)
    requires
        have.contains(Buf::Cur),
    ensures
        sound(enter_ops(s, far), 0, have),
        after(enter_ops(s, far), 0, have).contains(attn_input(far)),
        after(enter_ops(s, far), 0, have).contains(Buf::Normed),
        card_after(enter_ops(s, far), 0, card) == (if far {
            Place::Attn
        } else {
            card
        }),
{
    reveal_with_fuel(sound, 4);
    reveal_with_fuel(after, 4);
    reveal_with_fuel(card_after, 4);
}

proof fn lemma_qkv(s: &Shape, p: GqaPlan, f: AttnFacts, have: Set<Buf>, card: Place)
    requires
        have.contains(attn_input(f.far)),
    ensures
        makes(qk_ops(s, p, f), have, card, Buf::Q),
        makes(qk_ops(s, p, f), have, card, Buf::K),
        have.contains(Buf::K) ==> makes(v_ops(s, p, f), have, card, Buf::V),
{
    reveal_with_fuel(sound, 5);
    reveal_with_fuel(after, 5);
    reveal_with_fuel(card_after, 5);
}

proof fn lemma_heads(p: GqaPlan, f: AttnFacts, have: Set<Buf>, card: Place)
    requires
        have.contains(Buf::Q),
        have.contains(Buf::K),
        have.contains(Buf::V),
    ensures
        makes(conv_ops(p, f), have, card, Buf::V),
        makes(head_norm_ops(p, f), have, card, Buf::V),
        makes(rope_ops(p), have, card, Buf::Q),
        makes(append_ops(p, f), have, card, Buf::V),
{
    reveal_with_fuel(sound, 5);
    reveal_with_fuel(after, 5);
    reveal_with_fuel(card_after, 5);
}

proof fn lemma_scores(s: &Shape, p: GqaPlan, f: AttnFacts, have: Set<Buf>, card: Place)
    requires
        have.contains(attn_input(f.far)),
        have.contains(Buf::Q),
    ensures
        makes(score_ops(s, p, f), have, card, Buf::Q),
        f.relative is Some ==> after(score_ops(s, p, f), 0, have).contains(Buf::RelBias),
        f.rotate ==> after(score_ops(s, p, f), 0, have).contains(Buf::RotQ),
        (f.relative is Some ==> have.contains(Buf::RelBias)) && (f.rotate ==> have.contains(
            Buf::RotQ,
        )) ==> makes(attend_ops(s, p, f), have, card, Buf::Heads),
{
    reveal_with_fuel(sound, 4);
    reveal_with_fuel(after, 4);
    reveal_with_fuel(card_after, 4);
}

proof fn lemma_leave(s: &Shape, heads: Width, far: bool, have: Set<Buf>, card: Place)
    requires
        have.contains(Buf::Heads),
    ensures
        sound(leave_ops(s, heads, far), 0, have),
        after(leave_ops(s, heads, far), 0, have).contains(Buf::AttnOut),
        card_after(leave_ops(s, heads, far), 0, card) == (if far {
            Place::Primary
        } else {
            card
        }),
{
    reveal_with_fuel(sound, 4);
    reveal_with_fuel(after, 4);
    reveal_with_fuel(card_after, 4);
}

proof fn lemma_residual(s: &Shape, f: AttnFacts, have: Set<Buf>, card: Place)
    requires
        have.contains(Buf::AttnOut),
        have.contains(Buf::Cur),
    ensures
        makes(out_bias_ops(s, f), have, card, Buf::AttnOut),
        makes(residual_ops(s, f), have, card, Buf::AfterAttn),
        makes(residual_ops(s, f), have, card, Buf::Normed),
{
    reveal_with_fuel(sound, 6);
    reveal_with_fuel(after, 6);
    reveal_with_fuel(card_after, 6);
}

/// The attention half of a grouped-query layer reads nothing before it is
/// written, whatever the layer has; it ends on the primary card, with the
/// residual and the feed-forward's input written.
pub proof fn gqa_half_is_sound(s: &Shape, p: GqaPlan, f: AttnFacts)
    ensures
        runs(gqa_ops(s, p, f), set![Buf::Cur], Place::Primary),
        after(gqa_ops(s, p, f), 0, set![Buf::Cur]).contains(Buf::AfterAttn),
        after(gqa_ops(s, p, f), 0, set![Buf::Cur]).contains(Buf::Normed),
{
    let h0 = set![Buf::Cur];
    let pr = Place::Primary;
    let card = if f.far {
        Place::Attn
    } else {
        pr
    };
    let heads = Width { n: p.n_head_q, each: p.head_dim };
    let a0 = Seq::<Op>::empty();
    lemma_enter(s, f.far, h0, pr);
    lemma_step(a0, enter_ops(s, f.far), h0, pr);
    let a1 = a0 + enter_ops(s, f.far);
    let h1 = after(a1, 0, h0);
    lemma_qkv(s, p, f, h1, card);
    lemma_step(a1, qk_ops(s, p, f), h0, pr);
    let a2 = a1 + qk_ops(s, p, f);
    let h2 = after(a2, 0, h0);
    lemma_qkv(s, p, f, h2, card);
    lemma_step(a2, v_ops(s, p, f), h0, pr);
    let a3 = a2 + v_ops(s, p, f);
    lemma_heads(p, f, after(a3, 0, h0), card);
    lemma_step(a3, conv_ops(p, f), h0, pr);
    let a4 = a3 + conv_ops(p, f);
    lemma_heads(p, f, after(a4, 0, h0), card);
    lemma_step(a4, head_norm_ops(p, f), h0, pr);
    let a5 = a4 + head_norm_ops(p, f);
    lemma_heads(p, f, after(a5, 0, h0), card);
    lemma_step(a5, rope_ops(p), h0, pr);
    let a6 = a5 + rope_ops(p);
    lemma_heads(p, f, after(a6, 0, h0), card);
    lemma_step(a6, append_ops(p, f), h0, pr);
    let a7 = a6 + append_ops(p, f);
    lemma_scores(s, p, f, after(a7, 0, h0), card);
    lemma_step(a7, score_ops(s, p, f), h0, pr);
    let a8 = a7 + score_ops(s, p, f);
    lemma_scores(s, p, f, after(a8, 0, h0), card);
    lemma_step(a8, attend_ops(s, p, f), h0, pr);
    let a9 = a8 + attend_ops(s, p, f);
    lemma_leave(s, heads, f.far, after(a9, 0, h0), card);
    lemma_step(a9, leave_ops(s, heads, f.far), h0, pr);
    let a10 = a9 + leave_ops(s, heads, f.far);
    lemma_residual(s, f, after(a10, 0, h0), pr);
    lemma_step(a10, out_bias_ops(s, f), h0, pr);
    let a11 = a10 + out_bias_ops(s, f);
    lemma_residual(s, f, after(a11, 0, h0), pr);
    lemma_step(a11, residual_ops(s, f), h0, pr);
}

/// What a latent-attention layer does about the selection of rows.
#[derive(Clone, Copy, Debug, PartialEq, Eq, Structural)]
pub struct LatentFacts {
    /// Entries of the selection to bring over from another card.
    pub hop: Option<u32>,
    /// The layer keeps selection keys.
    pub keeps_keys: bool,
    pub rows: Rows,
    /// Rows in reach of the last token.
    pub visible: u32,
    /// One token, or several.
    pub batch: bool,
}

/// Bring the live selection to the card that will read it.
pub open spec fn hop_ops(m: LatentFacts) -> Seq<Op> {
    match m.hop {
        Some(len) => seq![Op::HopSelection { len }],
        None => Seq::empty(),
    }
}

/// Queries through their bottleneck, and the latent rows into their cache.
pub open spec fn latent_ops(s: &Shape, far: bool) -> Seq<Op> {
    let x = attn_input(far);
    let q = Width { n: s.n_head, each: (s.qk_nope + s.qk_rope) as u32 };
    seq![
        Op::Mul { dst: Buf::QRank, w: Weight::QA, src: x, inner: flat(s.n_embd), outer: flat(s.n_lora_q) },
        Op::Norm { dst: Buf::QRankNorm, src: Buf::QRank, w: Weight::QANorm, width: flat(s.n_lora_q) },
        Op::Mul { dst: Buf::Q, w: Weight::QB, src: Buf::QRankNorm, inner: flat(s.n_lora_q), outer: q },
        Op::RopeTail { buf: Buf::Q },
        Op::Mul { dst: Buf::KvRaw, w: Weight::KvA, src: x, inner: flat(s.n_embd), outer: flat((s.n_kv_lora + s.qk_rope) as u32) },
        Op::LatentNorm,
        Op::StoreLatent,
    ]
}

fn push_latent(v: &mut Vec<Op>, s: &Shape, far: bool)
    requires
        s.qk_nope + s.qk_rope <= u32::MAX,
        s.n_kv_lora + s.qk_rope <= u32::MAX,
    ensures
        final(v)@ == old(v)@ + latent_ops(s, far),
{
    let x = input_of(far);
    let q = Width { n: s.n_head, each: s.qk_nope + s.qk_rope };
    v.push(
        Op::Mul { dst: Buf::QRank, w: Weight::QA, src: x, inner: one(s.n_embd), outer: one(s.n_lora_q) },
    );
    v.push(
        Op::Norm { dst: Buf::QRankNorm, src: Buf::QRank, w: Weight::QANorm, width: one(s.n_lora_q) },
    );
    v.push(
        Op::Mul { dst: Buf::Q, w: Weight::QB, src: Buf::QRankNorm, inner: one(s.n_lora_q), outer: q },
    );
    v.push(Op::RopeTail { buf: Buf::Q });
    v.push(
        Op::Mul { dst: Buf::KvRaw, w: Weight::KvA, src: x, inner: one(s.n_embd), outer: one(s.n_kv_lora + s.qk_rope) },
    );
    v.push(Op::LatentNorm);
    v.push(Op::StoreLatent);
    assert(v@ =~= old(v)@ + latent_ops(s, far));
}

/// The layer's selection keys.
pub open spec fn key_ops(s: &Shape, m: LatentFacts, far: bool) -> Seq<Op> {
    if m.keeps_keys {
        seq![
            Op::Mul {
                dst: Buf::IdxKey,
                w: Weight::IdxK,
                src: attn_input(far),
                inner: flat(s.n_embd),
                outer: flat(s.n_idx_dim),
            },
            Op::StoreIdx,
        ]
    } else {
        Seq::empty()
    }
}

fn push_keys(v: &mut Vec<Op>, s: &Shape, m: LatentFacts, far: bool)
    ensures
        final(v)@ == old(v)@ + key_ops(s, m, far),
{
    if m.keeps_keys {
        v.push(
            Op::Mul {
                dst: Buf::IdxKey,
                w: Weight::IdxK,
                src: input_of(far),
                inner: one(s.n_embd),
                outer: one(s.n_idx_dim),
            },
        );
        v.push(Op::StoreIdx);
    }
    assert(v@ =~= old(v)@ + key_ops(s, m, far));
}

/// The weights of the selection's heads come from the stream before its
/// norm, which lives on the primary.
pub open spec fn idx_weight_ops(s: &Shape, far: bool) -> Seq<Op> {
    if far {
        seq![
            Op::Copy { dst: Buf::FarOut, src: Buf::Cur, width: flat(s.n_embd) },
            Op::MulF {
                dst: Buf::IdxWeights,
                w: Weight::IdxProj,
                src: Buf::FarOut,
                from: s.n_embd,
                to: s.n_idx_head,
                rows: 1,
            },
        ]
    } else {
        seq![
            Op::MulF {
                dst: Buf::IdxWeights,
                w: Weight::IdxProj,
                src: Buf::Cur,
                from: s.n_embd,
                to: s.n_idx_head,
                rows: 1,
            },
        ]
    }
}

/// The selection of this layer.
pub open spec fn select_ops(s: &Shape, m: LatentFacts, far: bool) -> Seq<Op> {
    match m.rows {
        Rows::All(n) => seq![Op::SelectAll { visible: n }],
        Rows::Scored(topk) => seq![
            Op::Mul {
                dst: Buf::IdxQuery,
                w: Weight::IdxQB,
                src: Buf::QRankNorm,
                inner: flat(s.n_lora_q),
                outer: Width { n: s.n_idx_head, each: s.n_idx_dim },
            },
            Op::RopeIdx,
        ] + idx_weight_ops(s, far) + seq![
            Op::Score { batch: m.batch, visible: m.visible },
            Op::TopK { batch: m.batch, visible: m.visible, topk },
        ],
        Rows::Reused(_) => Seq::empty(),
    }
}

fn push_select(v: &mut Vec<Op>, s: &Shape, m: LatentFacts, far: bool)
    ensures
        final(v)@ == old(v)@ + select_ops(s, m, far),
{
    match m.rows {
        Rows::All(n) => {
            v.push(Op::SelectAll { visible: n });
        },
        Rows::Scored(topk) => {
            v.push(
                Op::Mul {
                    dst: Buf::IdxQuery,
                    w: Weight::IdxQB,
                    src: Buf::QRankNorm,
                    inner: one(s.n_lora_q),
                    outer: Width { n: s.n_idx_head, each: s.n_idx_dim },
                },
            );
            v.push(Op::RopeIdx);
            if far {
                v.push(Op::Copy { dst: Buf::FarOut, src: Buf::Cur, width: one(s.n_embd) });
            }
            v.push(
                Op::MulF {
                    dst: Buf::IdxWeights,
                    w: Weight::IdxProj,
                    src: if far {
                        Buf::FarOut
                    } else {
                        Buf::Cur
                    },
                    from: s.n_embd,
                    to: s.n_idx_head,
                    rows: 1,
                },
            );
            v.push(Op::Score { batch: m.batch, visible: m.visible });
            v.push(Op::TopK { batch: m.batch, visible: m.visible, topk });
        },
        Rows::Reused(_) => {},
    }
    assert(v@ =~= old(v)@ + select_ops(s, m, far));
}

/// Number of selected rows.
pub open spec fn rows_count(r: Rows) -> u32 {
    match r {
        Rows::All(n) => n,
        Rows::Scored(n) => n,
        Rows::Reused(n) => n,
    }
}

/// Attention over the selected latent rows.
pub open spec fn latent_attend_ops(m: LatentFacts) -> Seq<Op> {
    seq![Op::LowRank, Op::AttendLatent { rows: rows_count(m.rows) }]
}

/// The attention half of a latent-attention layer.
pub open spec fn mla_ops(s: &Shape, m: LatentFacts, f: AttnFacts) -> Seq<Op> {
    Seq::<Op>::empty() + hop_ops(m) + enter_ops(s, f.far) + latent_ops(s, f.far) + key_ops(s, m, f.far)
        + select_ops(s, m, f.far) + latent_attend_ops(m) + leave_ops(
        s,
        Width { n: s.n_head, each: s.value_mla },
        f.far,
    ) + residual_ops(s, f)
}

/// The launches of a latent-attention layer's attention half.
pub fn plan_mla_half(s: &Shape, m: LatentFacts, f: AttnFacts) -> (v: Vec<Op>)
    requires
        s.qk_nope + s.qk_rope <= u32::MAX,
        s.n_kv_lora + s.qk_rope <= u32::MAX,
    ensures
        v@ == mla_ops(s, m, f),
{
    let mut v: Vec<Op> = Vec::new();
    match m.hop {
        Some(len) => {
            v.push(Op::HopSelection { len });
        },
        None => {},
    }
    assert(v@ =~= Seq::<Op>::empty() + hop_ops(m));
    push_enter(&mut v, s, f.far);
    push_latent(&mut v, s, f.far);
    push_keys(&mut v, s, m, f.far);
    push_select(&mut v, s, m, f.far);
    let ghost was = v@;
    let rows: u32 = match m.rows {
        Rows::All(n) => n,
        Rows::Scored(n) => n,
        Rows::Reused(n) => n,
    };
    v.push(Op::LowRank);
    v.push(Op::AttendLatent { rows });
    assert(v@ =~= was + latent_attend_ops(m));
    push_leave(&mut v, s, Width { n: s.n_head, each: s.value_mla }, f.far);
    push_residual(&mut v, s, f);
    v
}

proof fn lemma_hop(m: LatentFacts, have: Set<Buf>, card: Place)
    requires
        have.contains(Buf::Cur),
        m.hop is Some ==> have.contains(Buf::Selected),
    ensures
        makes(hop_ops(m), have, card, Buf::Cur),
{
    reveal_with_fuel(sound, 2);
    reveal_with_fuel(after, 2);
    reveal_with_fuel(card_after, 2);
}

proof fn lemma_latent(s: &Shape, m: LatentFacts, far: bool, have: Set<Buf>, card: Place)
    requires
        have.contains(attn_input(far)),
    ensures
        makes(latent_ops(s, far), have, card, Buf::Q),
        makes(latent_ops(s, far), have, card, Buf::QRankNorm),
        makes(key_ops(s, m, far), have, card, attn_input(far)),
{
    reveal_with_fuel(sound, 8);
    reveal_with_fuel(after, 8);
    reveal_with_fuel(card_after, 8);
}

proof fn lemma_select(s: &Shape, m: LatentFacts, far: bool, have: Set<Buf>, card: Place)
    requires
        have.contains(Buf::QRankNorm),
        have.contains(Buf::Cur),
        m.rows is Reused ==> have.contains(Buf::Selected),
    ensures
        makes(select_ops(s, m, far), have, card, Buf::Selected),
        have.contains(Buf::Q) && have.contains(Buf::Selected) ==> makes(
            latent_attend_ops(m),
            have,
            card,
            Buf::Heads,
        ),
{
    reveal_with_fuel(sound, 7);
    reveal_with_fuel(after, 7);
    reveal_with_fuel(card_after, 7);
}

/// What a latent-attention layer starts from: the stream, and the live
/// selection where it reuses or moves it.
pub open spec fn latent_inputs(m: LatentFacts) -> Set<Buf> {
    if m.rows is Reused || m.hop is Some {
        set![Buf::Cur, Buf::Selected]
    } else {
        set![Buf::Cur]
    }
}

/// The attention half of a latent-attention layer reads nothing before it is
/// written; it ends on the primary card, with the residual and the
/// feed-forward's input written, and a live selection.
pub proof fn mla_half_is_sound(s: &Shape, m: LatentFacts, f: AttnFacts)
    ensures
        runs(mla_ops(s, m, f), latent_inputs(m), Place::Primary),
        after(mla_ops(s, m, f), 0, latent_inputs(m)).contains(Buf::AfterAttn),
        after(mla_ops(s, m, f), 0, latent_inputs(m)).contains(Buf::Normed),
        after(mla_ops(s, m, f), 0, latent_inputs(m)).contains(Buf::Selected),
{
    let h0 = latent_inputs(m);
    let pr = Place::Primary;
    let card = if f.far {
        Place::Attn
    } else {
        pr
    };
    let heads = Width { n: s.n_head, each: s.value_mla };
    let a0 = Seq::<Op>::empty();
    lemma_hop(m, h0, pr);
    lemma_step(a0, hop_ops(m), h0, pr);
    let a1 = a0 + hop_ops(m);
    lemma_enter(s, f.far, after(a1, 0, h0), pr);
    lemma_step(a1, enter_ops(s, f.far), h0, pr);
    let a2 = a1 + enter_ops(s, f.far);
    lemma_latent(s, m, f.far, after(a2, 0, h0), card);
    lemma_step(a2, latent_ops(s, f.far), h0, pr);
    let a3 = a2 + latent_ops(s, f.far);
    lemma_latent(s, m, f.far, after(a3, 0, h0), card);
    lemma_step(a3, key_ops(s, m, f.far), h0, pr);
    let a4 = a3 + key_ops(s, m, f.far);
    assert(h0.contains(Buf::Cur));
    assert(after(a0, 0, h0).contains(Buf::Cur));
    assert(m.rows is Reused ==> after(a0, 0, h0).contains(Buf::Selected));
    lemma_select(s, m, f.far, after(a4, 0, h0), card);
    lemma_step(a4, select_ops(s, m, f.far), h0, pr);
    let a5 = a4 + select_ops(s, m, f.far);
    lemma_select(s, m, f.far, after(a5, 0, h0), card);
    lemma_step(a5, latent_attend_ops(m), h0, pr);
    let a6 = a5 + latent_attend_ops(m);
    lemma_leave(s, heads, f.far, after(a6, 0, h0), card);
    lemma_step(a6, leave_ops(s, heads, f.far), h0, pr);
    let a7 = a6 + leave_ops(s, heads, f.far);
    lemma_residual(s, f, after(a7, 0, h0), pr);
    lemma_step(a7, residual_ops(s, f), h0, pr);
}

/// What the feed-forward half of a layer has.
#[derive(Clone, Copy, Debug, PartialEq, Eq, Structural)]
pub struct FfnFacts {
    /// Float bits that scale a dense output, where it is scaled.
    pub scale: Option<u32>,
    /// The output runs through a short convolution.
    pub conv: bool,
    /// The router has its own norm, and the sums are normed.
    pub sandwich: bool,
    pub router_bias: bool,
    pub down_scale: bool,
    /// The next layer's router is tried on this layer's input.
    pub predict: bool,
    /// Width of the shared expert, where there is one.
    pub shared: Option<u32>,
    /// Float bits that scale the stream at the end, where it is scaled.
    pub out_scale: Option<u32>,
}

/// The convolution of a feed-forward's output.
pub open spec fn mlp_conv_ops(s: &Shape, on: bool) -> Seq<Op> {
    if on {
        seq![
            Op::Conv {
                dst: Buf::Conv,
                src: Buf::FfnOut,
                w: Weight::ConvMlp,
                state: 3,
                width: flat(s.n_embd),
            },
            Op::Copy { dst: Buf::FfnOut, src: Buf::Conv, width: flat(s.n_embd) },
        ]
    } else {
        Seq::empty()
    }
}

fn push_mlp_conv(v: &mut Vec<Op>, s: &Shape, on: bool)
    ensures
        final(v)@ == old(v)@ + mlp_conv_ops(s, on),
{
    if on {
        v.push(
            Op::Conv {
                dst: Buf::Conv,
                src: Buf::FfnOut,
                w: Weight::ConvMlp,
                state: 3,
                width: one(s.n_embd),
            },
        );
        v.push(Op::Copy { dst: Buf::FfnOut, src: Buf::Conv, width: one(s.n_embd) });
    }
    assert(v@ =~= old(v)@ + mlp_conv_ops(s, on));
}

/// Scale a buffer, where there is a scale.
pub open spec fn scale_ops(buf: Buf, by: Option<u32>) -> Seq<Op> {
    match by {
        Some(bits) => seq![Op::Scale { buf, bits }],
        None => Seq::empty(),
    }
}

fn push_scale(v: &mut Vec<Op>, buf: Buf, by: Option<u32>)
    ensures
        final(v)@ == old(v)@ + scale_ops(buf, by),
{
    match by {
        Some(bits) => {
            v.push(Op::Scale { buf, bits });
        },
        None => {},
    }
    assert(v@ =~= old(v)@ + scale_ops(buf, by));
}

/// A gated feed-forward of width `w` from the normed rows into `dst`.
pub open spec fn gated_ops(s: &Shape, w: u32, dst: Buf, gate: Weight, up: Weight, down: Weight) -> Seq<Op> {
    seq![
        Op::Mul { dst: Buf::GateAct, w: gate, src: Buf::Normed, inner: flat(s.n_embd), outer: flat(w) },
        Op::Mul { dst: Buf::UpAct, w: up, src: Buf::Normed, inner: flat(s.n_embd), outer: flat(w) },
        Op::Swiglu { dst: Buf::FfnMid, a: Buf::GateAct, b: Buf::UpAct, width: flat(w) },
        Op::Mul { dst, w: down, src: Buf::FfnMid, inner: flat(w), outer: flat(s.n_embd) },
    ]
}

fn push_gated(v: &mut Vec<Op>, s: &Shape, w: u32, dst: Buf, gate: Weight, up: Weight, down: Weight)
    ensures
        final(v)@ == old(v)@ + gated_ops(s, w, dst, gate, up, down),
{
    v.push(
        Op::Mul { dst: Buf::GateAct, w: gate, src: Buf::Normed, inner: one(s.n_embd), outer: one(w) },
    );
    v.push(
        Op::Mul { dst: Buf::UpAct, w: up, src: Buf::Normed, inner: one(s.n_embd), outer: one(w) },
    );
    v.push(Op::Swiglu { dst: Buf::FfnMid, a: Buf::GateAct, b: Buf::UpAct, width: one(w) });
    v.push(Op::Mul { dst, w: down, src: Buf::FfnMid, inner: one(w), outer: one(s.n_embd) });
    assert(v@ =~= old(v)@ + gated_ops(s, w, dst, gate, up, down));
}

/// The feed-forward half of a dense layer.
pub open spec fn dense_ops(s: &Shape, f: FfnFacts) -> Seq<Op> {
    Seq::<Op>::empty() + gated_ops(
        s,
        s.n_ff_dense,
        Buf::FfnOut,
        Weight::FfnGate,
        Weight::FfnUp,
        Weight::FfnDown,
    ) + scale_ops(Buf::FfnOut, f.scale) + mlp_conv_ops(s, f.conv) + seq![
        Op::Add { dst: Buf::Cur, a: Buf::AfterAttn, b: Buf::FfnOut },
    ]
}

/// The launches of a dense layer's feed-forward half.
pub fn plan_dense_half(s: &Shape, f: FfnFacts) -> (v: Vec<Op>)
    ensures
        v@ == dense_ops(s, f),
{
    let mut v: Vec<Op> = Vec::new();
    push_gated(
        &mut v,
        s,
        s.n_ff_dense,
        Buf::FfnOut,
        Weight::FfnGate,
        Weight::FfnUp,
        Weight::FfnDown,
    );
    push_scale(&mut v, Buf::FfnOut, f.scale);
    push_mlp_conv(&mut v, s, f.conv);
    let ghost was = v@;
    v.push(Op::Add { dst: Buf::Cur, a: Buf::AfterAttn, b: Buf::FfnOut });
    assert(v@ =~= was + seq![Op::Add { dst: Buf::Cur, a: Buf::AfterAttn, b: Buf::FfnOut }]);
    v
}

proof fn lemma_gated(s: &Shape, w: u32, dst: Buf, g: Weight, u: Weight, d: Weight, have: Set<Buf>, card: Place)
    requires
        have.contains(Buf::Normed),
    ensures
        makes(gated_ops(s, w, dst, g, u, d), have, card, dst),
{
    reveal_with_fuel(sound, 5);
    reveal_with_fuel(after, 5);
    reveal_with_fuel(card_after, 5);
}

proof fn lemma_ffn_tail(s: &Shape, by: Option<u32>, conv: bool, have: Set<Buf>, card: Place)
    requires
        have.contains(Buf::FfnOut),
        have.contains(Buf::AfterAttn),
    ensures
        makes(scale_ops(Buf::FfnOut, by), have, card, Buf::FfnOut),
        makes(mlp_conv_ops(s, conv), have, card, Buf::FfnOut),
        makes(
            seq![Op::Add { dst: Buf::Cur, a: Buf::AfterAttn, b: Buf::FfnOut }],
            have,
            card,
            Buf::Cur,
        ),
{
    reveal_with_fuel(sound, 3);
    reveal_with_fuel(after, 3);
    reveal_with_fuel(card_after, 3);
}

/// What an attention half leaves for the feed-forward.
pub open spec fn ffn_inputs() -> Set<Buf> {
    set![Buf::Normed, Buf::AfterAttn]
}

/// The feed-forward half of a dense layer reads nothing before it is
/// written, stays on its card, and writes the stream.
pub proof fn dense_half_is_sound(s: &Shape, f: FfnFacts)
    ensures
        runs(dense_ops(s, f), ffn_inputs(), Place::Primary),
        after(dense_ops(s, f), 0, ffn_inputs()).contains(Buf::Cur),
{
    let h0 = ffn_inputs();
    let pr = Place::Primary;
    let a0 = Seq::<Op>::empty();
    let g = gated_ops(
        s,
        s.n_ff_dense,
        Buf::FfnOut,
        Weight::FfnGate,
        Weight::FfnUp,
        Weight::FfnDown,
    );
    assert(after(a0, 0, h0).contains(Buf::AfterAttn) && after(a0, 0, h0).contains(Buf::Normed));
    lemma_gated(
        s,
        s.n_ff_dense,
        Buf::FfnOut,
        Weight::FfnGate,
        Weight::FfnUp,
        Weight::FfnDown,
        after(a0, 0, h0),
        pr,
    );
    lemma_step(a0, g, h0, pr);
    let a1 = a0 + g;
    lemma_ffn_tail(s, f.scale, f.conv, after(a1, 0, h0), pr);
    lemma_step(a1, scale_ops(Buf::FfnOut, f.scale), h0, pr);
    let a2 = a1 + scale_ops(Buf::FfnOut, f.scale);
    lemma_ffn_tail(s, f.scale, f.conv, after(a2, 0, h0), pr);
    lemma_step(a2, mlp_conv_ops(s, f.conv), h0, pr);
    let a3 = a2 + mlp_conv_ops(s, f.conv);
    lemma_ffn_tail(s, f.scale, f.conv, after(a3, 0, h0), pr);
    lemma_step(a3, seq![Op::Add { dst: Buf::Cur, a: Buf::AfterAttn, b: Buf::FfnOut }], h0, pr);
}

/// The router: on its own normed input, or on the feed-forward's.
pub open spec fn router_ops(s: &Shape, r: RouterPlan, f: FfnFacts) -> Seq<Op> {
    let logits = if f.sandwich {
        seq![
            Op::Norm { dst: Buf::AttnOut, src: Buf::AfterAttn, w: Weight::RouterNorm, width: flat(s.n_embd) },
            Op::MulF {
                dst: Buf::RouterLogits,
                w: Weight::Router,
                src: Buf::AttnOut,
                from: s.n_embd,
                to: r.logits,
                rows: 1,
            },
        ]
    } else {
        seq![
            Op::MulF {
                dst: Buf::RouterLogits,
                w: Weight::Router,
                src: Buf::Normed,
                from: s.n_embd,
                to: r.logits,
                rows: 1,
            },
        ]
    };
    let bias = if f.router_bias {
        seq![Op::Bias { buf: Buf::RouterLogits, w: Weight::RouterBias, width: flat(s.n_expert) }]
    } else {
        Seq::empty()
    };
    let scale = if f.down_scale {
        seq![Op::ScaleWeights]
    } else {
        Seq::empty()
    };
    logits + bias + seq![Op::Select { pred: false }] + scale
}

fn push_router(v: &mut Vec<Op>, s: &Shape, r: RouterPlan, f: FfnFacts)
    ensures
        final(v)@ == old(v)@ + router_ops(s, r, f),
{
    if f.sandwich {
        v.push(
            Op::Norm { dst: Buf::AttnOut, src: Buf::AfterAttn, w: Weight::RouterNorm, width: one(s.n_embd) },
        );
    }
    v.push(
        Op::MulF {
            dst: Buf::RouterLogits,
            w: Weight::Router,
            src: if f.sandwich {
                Buf::AttnOut
            } else {
                Buf::Normed
            },
            from: s.n_embd,
            to: r.logits,
            rows: 1,
        },
    );
    if f.router_bias {
        v.push(Op::Bias { buf: Buf::RouterLogits, w: Weight::RouterBias, width: one(s.n_expert) });
    }
    v.push(Op::Select { pred: false });
    if f.down_scale {
        v.push(Op::ScaleWeights);
    }
    assert(v@ =~= old(v)@ + router_ops(s, r, f));
}

/// The next layer's router on this layer's input.
pub open spec fn predict_ops(s: &Shape, logits: u32, on: bool) -> Seq<Op> {
    if on {
        seq![
            Op::MulF {
                dst: Buf::PredLogits,
                w: Weight::NextRouter,
                src: Buf::Normed,
                from: s.n_embd,
                to: logits,
                rows: 1,
            },
            Op::Select { pred: true },
        ]
    } else {
        Seq::empty()
    }
}

fn push_predict(v: &mut Vec<Op>, s: &Shape, logits: u32, on: bool)
    ensures
        final(v)@ == old(v)@ + predict_ops(s, logits, on),
{
    if on {
        v.push(
            Op::MulF {
                dst: Buf::PredLogits,
                w: Weight::NextRouter,
                src: Buf::Normed,
                from: s.n_embd,
                to: logits,
                rows: 1,
            },
        );
        v.push(Op::Select { pred: true });
    }
    assert(v@ =~= old(v)@ + predict_ops(s, logits, on));
}

/// The shared expert; without one its output is zero.
pub open spec fn shared_ops(s: &Shape, f: FfnFacts) -> Seq<Op> {
    match f.shared {
        Some(w) => {
            let run = gated_ops(
                s,
                w,
                Buf::SharedOut,
                Weight::SharedGate,
                Weight::SharedUp,
                Weight::SharedDown,
            );
            if f.sandwich {
                run + seq![Op::NormIn { buf: Buf::SharedOut, w: Weight::PostSharedNorm }]
            } else {
                run
            }
        },
        None => seq![Op::Zero { buf: Buf::SharedOut }],
    }
}

fn push_shared(v: &mut Vec<Op>, s: &Shape, f: FfnFacts)
    ensures
        final(v)@ == old(v)@ + shared_ops(s, f),
{
    match f.shared {
        Some(w) => {
            push_gated(
                v,
                s,
                w,
                Buf::SharedOut,
                Weight::SharedGate,
                Weight::SharedUp,
                Weight::SharedDown,
            );
            if f.sandwich {
                v.push(Op::NormIn { buf: Buf::SharedOut, w: Weight::PostSharedNorm });
            }
        },
        None => {
            v.push(Op::Zero { buf: Buf::SharedOut });
        },
    }
    assert(v@ =~= old(v)@ + shared_ops(s, f));
}

/// The routed experts' input, in quantized blocks.
pub open spec fn block_ops(s: &Shape, f: FfnFacts) -> Seq<Op> {
    let q = Op::Quantize { dst: Buf::Blocks, src: Buf::Normed, width: flat(s.n_embd) };
    if f.sandwich {
        seq![
            Op::Norm { dst: Buf::Normed, src: Buf::AfterAttn, w: Weight::PreRoutedNorm, width: flat(s.n_embd) },
            q,
        ]
    } else {
        seq![q]
    }
}

fn push_blocks(v: &mut Vec<Op>, s: &Shape, f: FfnFacts)
    ensures
        final(v)@ == old(v)@ + block_ops(s, f),
{
    if f.sandwich {
        v.push(
            Op::Norm { dst: Buf::Normed, src: Buf::AfterAttn, w: Weight::PreRoutedNorm, width: one(s.n_embd) },
        );
    }
    v.push(Op::Quantize { dst: Buf::Blocks, src: Buf::Normed, width: one(s.n_embd) });
    assert(v@ =~= old(v)@ + block_ops(s, f));
}

/// What a routed layer launches before its experts are resolved: all that
/// does not need them, so that it runs while they are fetched.
pub open spec fn moe_before_ops(s: &Shape, r: RouterPlan, f: FfnFacts) -> Seq<Op> {
    Seq::<Op>::empty() + router_ops(s, r, f) + predict_ops(
        s,
        (s.n_expert + r.sink) as u32,
        f.predict,
    ) + shared_ops(s, f) + block_ops(s, f)
}

/// The launches of a routed layer up to the resolve.
pub fn plan_moe_before(s: &Shape, r: RouterPlan, f: FfnFacts) -> (v: Vec<Op>)
    requires
        s.n_expert + r.sink <= u32::MAX,
    ensures
        v@ == moe_before_ops(s, r, f),
{
    let mut v: Vec<Op> = Vec::new();
    push_router(&mut v, s, r, f);
    push_predict(&mut v, s, s.n_expert + r.sink, f.predict);
    push_shared(&mut v, s, f);
    push_blocks(&mut v, s, f);
    v
}

proof fn lemma_router(s: &Shape, r: RouterPlan, f: FfnFacts, have: Set<Buf>, card: Place)
    requires
        have.contains(Buf::Normed),
        have.contains(Buf::AfterAttn),
    ensures
        makes(router_ops(s, r, f), have, card, Buf::Weights),
        makes(router_ops(s, r, f), have, card, Buf::Picks),
        makes(predict_ops(s, (s.n_expert + r.sink) as u32, f.predict), have, card, Buf::Normed),
        makes(block_ops(s, f), have, card, Buf::Blocks),
{
    reveal_with_fuel(sound, 6);
    reveal_with_fuel(after, 6);
    reveal_with_fuel(card_after, 6);
}

proof fn lemma_shared(s: &Shape, f: FfnFacts, have: Set<Buf>, card: Place)
    requires
        have.contains(Buf::Normed),
    ensures
        makes(shared_ops(s, f), have, card, Buf::SharedOut),
{
    reveal_with_fuel(sound, 6);
    reveal_with_fuel(after, 6);
    reveal_with_fuel(card_after, 6);
}

/// What is launched before the resolve reads nothing before it is written,
/// stays on its card, and leaves the selection, its weights, the experts'
/// input and the shared output.
pub proof fn moe_before_is_sound(s: &Shape, r: RouterPlan, f: FfnFacts)
    ensures
        runs(moe_before_ops(s, r, f), ffn_inputs(), Place::Primary),
        moe_inputs().subset_of(after(moe_before_ops(s, r, f), 0, ffn_inputs())),
{
    let h0 = ffn_inputs();
    let pr = Place::Primary;
    let a0 = Seq::<Op>::empty();
    assert(after(a0, 0, h0).contains(Buf::AfterAttn) && after(a0, 0, h0).contains(Buf::Normed));
    lemma_router(s, r, f, after(a0, 0, h0), pr);
    lemma_step(a0, router_ops(s, r, f), h0, pr);
    let a1 = a0 + router_ops(s, r, f);
    lemma_router(s, r, f, after(a1, 0, h0), pr);
    let pred = predict_ops(s, (s.n_expert + r.sink) as u32, f.predict);
    lemma_step(a1, pred, h0, pr);
    let a2 = a1 + pred;
    lemma_shared(s, f, after(a2, 0, h0), pr);
    lemma_step(a2, shared_ops(s, f), h0, pr);
    let a3 = a2 + shared_ops(s, f);
    lemma_router(s, r, f, after(a3, 0, h0), pr);
    lemma_step(a3, block_ops(s, f), h0, pr);
    let done = after(a3 + block_ops(s, f), 0, h0);
    assert(done.contains(Buf::Normed));
    assert(done.contains(Buf::AfterAttn));
    assert(done.contains(Buf::Weights));
    assert(done.contains(Buf::Blocks));
    assert(done.contains(Buf::SharedOut));
}

/// What is there once the experts are resolved.
pub open spec fn moe_inputs() -> Set<Buf> {
    set![Buf::Normed, Buf::AfterAttn, Buf::Weights, Buf::Blocks, Buf::SharedOut]
}

/// A tier with work in this layer.
#[derive(Clone, Copy, Debug, PartialEq, Eq, Structural)]
pub struct TierUse {
    pub tier: usize,
    pub routed: bool,
    /// Slots of a shared bank with its own layout.
    pub shared: bool,
}

/// How many of the first `n` slots a tier serves, in its routed pass or in
/// its pass over the shared bank.
pub open spec fn served(us: Seq<SlotUse>, tier: usize, bank_pass: bool, n: int) -> int
    decreases n,
{
    if n <= 0 {
        0
    } else {
        served(us, tier, bank_pass, n - 1) + if us[n - 1] == (SlotUse::Tier { tier, bank_pass }) {
            1int
        } else {
            0int
        }
    }
}

/// How many slots a tier serves in a pass.
pub fn slots_served(us: &Vec<SlotUse>, tier: usize, bank_pass: bool) -> (n: usize)
    ensures
        n == served(us@, tier, bank_pass, us@.len() as int),
        n <= us@.len(),
{
    let mut i: usize = 0;
    let mut n: usize = 0;
    while i < us.len()
        invariant
            i <= us@.len(),
            n <= i,
            n == served(us@, tier, bank_pass, i as int),
        decreases us@.len() - i,
    {
        if us[i] == (SlotUse::Tier { tier, bank_pass }) {
            n = n + 1;
        }
        i = i + 1;
    }
    n
}

/// The tiers below `n` that serve any slot, with their passes.
pub open spec fn active(us: Seq<SlotUse>, n: int) -> Seq<TierUse>
    decreases n,
{
    if n <= 0 {
        Seq::empty()
    } else {
        let t = (n - 1) as usize;
        let u = TierUse {
            tier: t,
            routed: served(us, t, false, us.len() as int) > 0,
            shared: served(us, t, true, us.len() as int) > 0,
        };
        if u.routed || u.shared {
            active(us, n - 1).push(u)
        } else {
            active(us, n - 1)
        }
    }
}

/// The tiers that take part in a layer.
pub fn tier_uses(us: &Vec<SlotUse>, n_tiers: usize) -> (v: Vec<TierUse>)
    ensures
        v@ == active(us@, n_tiers as int),
{
    let mut v: Vec<TierUse> = Vec::new();
    let mut t: usize = 0;
    while t < n_tiers
        invariant
            t <= n_tiers,
            v@ == active(us@, t as int),
        decreases n_tiers - t,
    {
        let routed: bool = slots_served(us, t, false) > 0;
        let shared: bool = slots_served(us, t, true) > 0;
        if routed || shared {
            v.push(TierUse { tier: t, routed, shared });
        }
        t = t + 1;
    }
    v
}

/// What the resolve decided.
#[derive(Clone, Copy, Debug, PartialEq, Eq, Structural)]
pub struct MoeFacts {
    /// Slots are grouped by expert.
    pub grouped: bool,
    pub bias: bool,
    /// The shared bank has its own layout, and so its own launch.
    pub shared_pass: bool,
    /// Processor lanes have work.
    pub lanes: bool,
    /// The lanes' experts also run on the card, to compare.
    pub check: bool,
}

/// Width of the experts' middle rows.
pub open spec fn mid_width(s: &Shape) -> Width {
    Width { n: s.n_expert_used, each: s.n_ff_exp }
}

/// One pass over expert slots into `out`.
pub open spec fn pass_ops(s: &Shape, refs: Refs, mid: Buf, out: Buf) -> Seq<Op> {
    seq![
        Op::Pair { dst: mid, refs, grouped: false },
        Op::Quantize { dst: mid_blocks(refs), src: mid, width: mid_width(s) },
        Op::Down { dst: out, refs, grouped: false },
    ]
}

fn push_pass(v: &mut Vec<Op>, s: &Shape, refs: Refs, mid: Buf, out: Buf)
    ensures
        final(v)@ == old(v)@ + pass_ops(s, refs, mid, out),
{
    let blocks: Buf = match refs {
        Refs::Routed | Refs::Shared | Refs::Lane => Buf::MidBlocks,
        Refs::Tier(t) | Refs::TierShared(t) => Buf::TierMidBlocks(t),
    };
    v.push(Op::Pair { dst: mid, refs, grouped: false });
    v.push(
        Op::Quantize {
            dst: blocks,
            src: mid,
            width: Width { n: s.n_expert_used, each: s.n_ff_exp },
        },
    );
    v.push(Op::Down { dst: out, refs, grouped: false });
    assert(v@ =~= old(v)@ + pass_ops(s, refs, mid, out));
}

/// Bring the input to a tier.
pub open spec fn tier_in_ops(s: &Shape, u: TierUse) -> Seq<Op> {
    let t = u.tier;
    let base = seq![
        Op::Copy { dst: Buf::TierIn(t), src: Buf::Normed, width: flat(s.n_embd) },
        Op::Copy { dst: Buf::TierWeights(t), src: Buf::Weights, width: flat(s.n_expert_used) },
        Op::On(Place::Tier(t)),
        Op::PutRefs(Refs::Tier(t)),
    ];
    let quant = seq![Op::Quantize { dst: Buf::TierBlocks(t), src: Buf::TierIn(t), width: flat(s.n_embd) }];
    if u.shared {
        base + seq![Op::PutRefs(Refs::TierShared(t))] + quant
    } else {
        base + quant
    }
}

fn push_tier_in(v: &mut Vec<Op>, s: &Shape, u: TierUse)
    ensures
        final(v)@ == old(v)@ + tier_in_ops(s, u),
{
    let t: usize = u.tier;
    v.push(Op::Copy { dst: Buf::TierIn(t), src: Buf::Normed, width: one(s.n_embd) });
    v.push(Op::Copy { dst: Buf::TierWeights(t), src: Buf::Weights, width: one(s.n_expert_used) });
    v.push(Op::On(Place::Tier(t)));
    v.push(Op::PutRefs(Refs::Tier(t)));
    if u.shared {
        v.push(Op::PutRefs(Refs::TierShared(t)));
    }
    v.push(Op::Quantize { dst: Buf::TierBlocks(t), src: Buf::TierIn(t), width: one(s.n_embd) });
    assert(v@ =~= old(v)@ + tier_in_ops(s, u));
}

/// The routed slots of a tier.
pub open spec fn tier_routed_ops(s: &Shape, u: TierUse, bias: bool) -> Seq<Op> {
    let t = u.tier;
    let pass = pass_ops(s, Refs::Tier(t), Buf::TierMid(t), Buf::TierOut(t));
    if !u.routed {
        Seq::empty()
    } else if bias {
        pass + seq![Op::DownBias { dst: Buf::TierOut(t), refs: Refs::Tier(t) }]
    } else {
        pass
    }
}

/// The shared slots of a tier.
pub open spec fn tier_shared_ops(s: &Shape, u: TierUse) -> Seq<Op> {
    let t = u.tier;
    if u.shared {
        pass_ops(s, Refs::TierShared(t), Buf::TierMid(t), Buf::TierSharedOut(t))
    } else {
        Seq::empty()
    }
}

/// A tier's whole part, on its own card.
pub open spec fn tier_ops(s: &Shape, u: TierUse, bias: bool) -> Seq<Op> {
    tier_in_ops(s, u) + tier_routed_ops(s, u, bias) + tier_shared_ops(s, u) + seq![
        Op::On(Place::Primary),
    ]
}

fn push_tier(v: &mut Vec<Op>, s: &Shape, u: TierUse, bias: bool)
    ensures
        final(v)@ == old(v)@ + tier_ops(s, u, bias),
{
    let t: usize = u.tier;
    let ghost w0 = v@;
    push_tier_in(v, s, u);
    let ghost w1 = v@;
    if u.routed {
        push_pass(v, s, Refs::Tier(t), Buf::TierMid(t), Buf::TierOut(t));
        if bias {
            v.push(Op::DownBias { dst: Buf::TierOut(t), refs: Refs::Tier(t) });
        }
    }
    assert(v@ =~= w1 + tier_routed_ops(s, u, bias));
    let ghost w2 = v@;
    if u.shared {
        push_pass(v, s, Refs::TierShared(t), Buf::TierMid(t), Buf::TierSharedOut(t));
    }
    assert(v@ =~= w2 + tier_shared_ops(s, u));
    v.push(Op::On(Place::Primary));
    assert(v@ =~= w0 + tier_ops(s, u, bias));
}

/// The parts of the first `n` tiers.
pub open spec fn tiers_ops(s: &Shape, us: Seq<TierUse>, bias: bool, n: int) -> Seq<Op>
    decreases n,
{
    if n <= 0 {
        Seq::empty()
    } else {
        tiers_ops(s, us, bias, n - 1) + tier_ops(s, us[n - 1], bias)
    }
}

/// The lanes' experts on the card, read back.
pub open spec fn check_ops(s: &Shape, m: MoeFacts) -> Seq<Op> {
    if m.check {
        seq![Op::PutRefs(Refs::Lane)] + pass_ops(s, Refs::Lane, Buf::ExpertMid, Buf::MoeOut) + seq![
            Op::ReadBack,
            Op::PutRefs(Refs::Routed),
        ]
    } else {
        Seq::empty()
    }
}

fn push_check(v: &mut Vec<Op>, s: &Shape, m: MoeFacts)
    ensures
        final(v)@ == old(v)@ + check_ops(s, m),
{
    if m.check {
        v.push(Op::PutRefs(Refs::Lane));
        push_pass(v, s, Refs::Lane, Buf::ExpertMid, Buf::MoeOut);
        v.push(Op::ReadBack);
        v.push(Op::PutRefs(Refs::Routed));
    }
    assert(v@ =~= old(v)@ + check_ops(s, m));
}

/// The routed slots of the primary.
pub open spec fn routed_ops(s: &Shape, m: MoeFacts) -> Seq<Op> {
    let run = if m.grouped {
        seq![
            Op::Pair { dst: Buf::ExpertMid, refs: Refs::Routed, grouped: true },
            Op::Quantize { dst: Buf::MidBlocks, src: Buf::ExpertMid, width: mid_width(s) },
            Op::Zero { buf: Buf::SlotSums },
            Op::Down { dst: Buf::SlotSums, refs: Refs::Routed, grouped: true },
            Op::SumSlots,
        ]
    } else {
        pass_ops(s, Refs::Routed, Buf::ExpertMid, Buf::MoeOut)
    };
    if m.bias {
        run + seq![Op::DownBias { dst: Buf::MoeOut, refs: Refs::Routed }]
    } else {
        run
    }
}

fn push_routed(v: &mut Vec<Op>, s: &Shape, m: MoeFacts)
    ensures
        final(v)@ == old(v)@ + routed_ops(s, m),
{
    if m.grouped {
        v.push(Op::Pair { dst: Buf::ExpertMid, refs: Refs::Routed, grouped: true });
        v.push(
            Op::Quantize {
                dst: Buf::MidBlocks,
                src: Buf::ExpertMid,
                width: Width { n: s.n_expert_used, each: s.n_ff_exp },
            },
        );
        v.push(Op::Zero { buf: Buf::SlotSums });
        v.push(Op::Down { dst: Buf::SlotSums, refs: Refs::Routed, grouped: true });
        v.push(Op::SumSlots);
    } else {
        push_pass(v, s, Refs::Routed, Buf::ExpertMid, Buf::MoeOut);
    }
    if m.bias {
        v.push(Op::DownBias { dst: Buf::MoeOut, refs: Refs::Routed });
    }
    assert(v@ =~= old(v)@ + routed_ops(s, m));
}

/// The shared bank's own pass.
pub open spec fn bank_ops(s: &Shape, m: MoeFacts) -> Seq<Op> {
    if m.shared_pass {
        seq![Op::PutRefs(Refs::Shared)] + pass_ops(s, Refs::Shared, Buf::ExpertMid, Buf::FfnOut) + seq![
            Op::AddIn { dst: Buf::MoeOut, src: Buf::FfnOut },
        ]
    } else {
        Seq::empty()
    }
}

fn push_bank(v: &mut Vec<Op>, s: &Shape, m: MoeFacts)
    ensures
        final(v)@ == old(v)@ + bank_ops(s, m),
{
    if m.shared_pass {
        v.push(Op::PutRefs(Refs::Shared));
        push_pass(v, s, Refs::Shared, Buf::ExpertMid, Buf::FfnOut);
        v.push(Op::AddIn { dst: Buf::MoeOut, src: Buf::FfnOut });
    }
    assert(v@ =~= old(v)@ + bank_ops(s, m));
}

/// Bring one partial sum of a tier back, and add it.
pub open spec fn fetch_ops(s: &Shape, t: usize, src: Buf) -> Seq<Op> {
    seq![
        Op::On(Place::Tier(t)),
        Op::Copy { dst: Buf::Partial, src, width: flat(s.n_embd) },
        Op::On(Place::Primary),
        Op::AddIn { dst: Buf::MoeOut, src: Buf::Partial },
    ]
}

/// Bring a tier's partial sums back.
pub open spec fn gather_ops(s: &Shape, u: TierUse) -> Seq<Op> {
    let a = if u.routed {
        fetch_ops(s, u.tier, Buf::TierOut(u.tier))
    } else {
        Seq::empty()
    };
    let b = if u.shared {
        fetch_ops(s, u.tier, Buf::TierSharedOut(u.tier))
    } else {
        Seq::empty()
    };
    a + b
}

fn push_fetch(v: &mut Vec<Op>, s: &Shape, t: usize, src: Buf)
    ensures
        final(v)@ == old(v)@ + fetch_ops(s, t, src),
{
    v.push(Op::On(Place::Tier(t)));
    v.push(Op::Copy { dst: Buf::Partial, src, width: one(s.n_embd) });
    v.push(Op::On(Place::Primary));
    v.push(Op::AddIn { dst: Buf::MoeOut, src: Buf::Partial });
    assert(v@ =~= old(v)@ + fetch_ops(s, t, src));
}

fn push_gather(v: &mut Vec<Op>, s: &Shape, u: TierUse)
    ensures
        final(v)@ == old(v)@ + gather_ops(s, u),
{
    if u.routed {
        push_fetch(v, s, u.tier, Buf::TierOut(u.tier));
    }
    if u.shared {
        push_fetch(v, s, u.tier, Buf::TierSharedOut(u.tier));
    }
    assert(v@ =~= old(v)@ + gather_ops(s, u));
}

/// The partial sums of the first `n` tiers.
pub open spec fn gathers_ops(s: &Shape, us: Seq<TierUse>, n: int) -> Seq<Op>
    decreases n,
{
    if n <= 0 {
        Seq::empty()
    } else {
        gathers_ops(s, us, n - 1) + gather_ops(s, us[n - 1])
    }
}

/// The processor lanes' sum joins.
pub open spec fn lane_ops(m: MoeFacts) -> Seq<Op> {
    if m.lanes {
        seq![Op::PutLanes, Op::AddIn { dst: Buf::MoeOut, src: Buf::LaneOut }]
    } else {
        Seq::empty()
    }
}

/// The residual of routed and shared outputs.
pub open spec fn finish_ops(s: &Shape, f: FfnFacts) -> Seq<Op> {
    let sum = Op::Add { dst: Buf::FfnOut, a: Buf::MoeOut, b: Buf::SharedOut };
    if f.sandwich {
        seq![
            Op::NormIn { buf: Buf::MoeOut, w: Weight::PostRoutedNorm },
            sum,
            Op::NormIn { buf: Buf::FfnOut, w: Weight::PostFfnNorm },
        ]
    } else {
        seq![sum]
    }
}

/// The stream's residual, and its scale.
pub open spec fn stream_ops(f: FfnFacts) -> Seq<Op> {
    seq![Op::Add { dst: Buf::Cur, a: Buf::AfterAttn, b: Buf::FfnOut }] + scale_ops(
        Buf::Cur,
        f.out_scale,
    )
}

/// What a routed layer launches once its experts are resolved. Other cards
/// start first, so that they run beside the primary.
pub open spec fn moe_after_ops(s: &Shape, us: Seq<TierUse>, m: MoeFacts, f: FfnFacts) -> Seq<Op> {
    seq![Op::PutRefs(Refs::Routed)] + tiers_ops(s, us, m.bias, us.len() as int) + check_ops(s, m)
        + routed_ops(s, m) + bank_ops(s, m) + gathers_ops(s, us, us.len() as int) + lane_ops(m)
        + finish_ops(s, f) + mlp_conv_ops(s, f.conv) + stream_ops(f)
}

/// The launches of a routed layer behind the resolve.
pub fn plan_moe_after(s: &Shape, us: &Vec<TierUse>, m: MoeFacts, f: FfnFacts) -> (v: Vec<Op>)
    ensures
        v@ == moe_after_ops(s, us@, m, f),
{
    let mut v: Vec<Op> = Vec::new();
    v.push(Op::PutRefs(Refs::Routed));
    let ghost head = v@;
    assert(head =~= seq![Op::PutRefs(Refs::Routed)]);
    let mut i: usize = 0;
    assert(head + tiers_ops(s, us@, m.bias, 0) =~= head);
    while i < us.len()
        invariant
            i <= us@.len(),
            v@ == head + tiers_ops(s, us@, m.bias, i as int),
        decreases us@.len() - i,
    {
        let ghost was = v@;
        push_tier(&mut v, s, us[i], m.bias);
        assert(v@ =~= head + (tiers_ops(s, us@, m.bias, i as int) + tier_ops(s, us@[i as int], m.bias)));
        i = i + 1;
    }
    push_check(&mut v, s, m);
    push_routed(&mut v, s, m);
    push_bank(&mut v, s, m);
    let ghost mid = v@;
    let mut k: usize = 0;
    assert(mid + gathers_ops(s, us@, 0) =~= mid);
    while k < us.len()
        invariant
            k <= us@.len(),
            v@ == mid + gathers_ops(s, us@, k as int),
        decreases us@.len() - k,
    {
        push_gather(&mut v, s, us[k]);
        assert(v@ =~= mid + (gathers_ops(s, us@, k as int) + gather_ops(s, us@[k as int])));
        k = k + 1;
    }
    let ghost w0 = v@;
    if m.lanes {
        v.push(Op::PutLanes);
        v.push(Op::AddIn { dst: Buf::MoeOut, src: Buf::LaneOut });
    }
    assert(v@ =~= w0 + lane_ops(m));
    let ghost w1 = v@;
    if f.sandwich {
        v.push(Op::NormIn { buf: Buf::MoeOut, w: Weight::PostRoutedNorm });
    }
    v.push(Op::Add { dst: Buf::FfnOut, a: Buf::MoeOut, b: Buf::SharedOut });
    if f.sandwich {
        v.push(Op::NormIn { buf: Buf::FfnOut, w: Weight::PostFfnNorm });
    }
    assert(v@ =~= w1 + finish_ops(s, f));
    push_mlp_conv(&mut v, s, f.conv);
    let ghost w2 = v@;
    v.push(Op::Add { dst: Buf::Cur, a: Buf::AfterAttn, b: Buf::FfnOut });
    push_scale(&mut v, Buf::Cur, f.out_scale);
    assert(v@ =~= w2 + stream_ops(f));
    v
}

/// Sums into the routed output from `i` on.
pub open spec fn joins(ops: Seq<Op>, i: int) -> nat
    decreases ops.len() - i,
{
    if i >= ops.len() {
        0
    } else {
        joins(ops, i + 1) + (match ops[i] {
            Op::AddIn { dst, .. } => if dst == Buf::MoeOut {
                1nat
            } else {
                0
            },
            _ => 0,
        })
    }
}

/// Partial sums of the first `n` tiers.
pub open spec fn partials(us: Seq<TierUse>, n: int) -> nat
    decreases n,
{
    if n <= 0 {
        0
    } else {
        partials(us, n - 1) + (if us[n - 1].routed {
            1nat
        } else {
            0
        }) + (if us[n - 1].shared {
            1nat
        } else {
            0
        })
    }
}

proof fn lemma_joins_shift(a: Seq<Op>, b: Seq<Op>, i: int)
    requires
        0 <= i <= b.len(),
    ensures
        joins(a + b, a.len() + i) == joins(b, i),
    decreases b.len() - i,
{
    if i < b.len() {
        lemma_joins_shift(a, b, i + 1);
    }
}

proof fn lemma_joins(a: Seq<Op>, b: Seq<Op>, i: int)
    requires
        0 <= i <= a.len(),
    ensures
        joins(a + b, i) == joins(a, i) + joins(b, 0),
    decreases a.len() - i,
{
    if i < a.len() {
        lemma_joins(a, b, i + 1);
    } else {
        lemma_joins_shift(a, b, 0);
    }
}

proof fn lemma_pass_joins(s: &Shape, refs: Refs, mid: Buf, out: Buf)
    ensures
        joins(pass_ops(s, refs, mid, out), 0) == 0,
{
    reveal_with_fuel(joins, 4);
}

proof fn lemma_tier_part_joins(s: &Shape, u: TierUse, bias: bool)
    ensures
        joins(tier_ops(s, u, bias), 0) == 0,
{
    let t = u.tier;
    let a = tier_in_ops(s, u);
    let b = tier_routed_ops(s, u, bias);
    let c = tier_shared_ops(s, u);
    let d = seq![Op::On(Place::Primary)];
    let pass = pass_ops(s, Refs::Tier(t), Buf::TierMid(t), Buf::TierOut(t));
    lemma_pass_joins(s, Refs::Tier(t), Buf::TierMid(t), Buf::TierOut(t));
    lemma_pass_joins(s, Refs::TierShared(t), Buf::TierMid(t), Buf::TierSharedOut(t));
    lemma_joins(pass, seq![Op::DownBias { dst: Buf::TierOut(t), refs: Refs::Tier(t) }], 0);
    lemma_joins(a, b, 0);
    lemma_joins(a + b, c, 0);
    lemma_joins(a + b + c, d, 0);
    assert(joins(a, 0) == 0) by {
        reveal_with_fuel(joins, 7);
    }
    assert(joins(d, 0) == 0) by {
        reveal_with_fuel(joins, 2);
    }
    assert(joins(seq![Op::DownBias { dst: Buf::TierOut(t), refs: Refs::Tier(t) }], 0) == 0) by {
        reveal_with_fuel(joins, 2);
    }
}

proof fn lemma_gather_joins(s: &Shape, u: TierUse)
    ensures
        joins(gather_ops(s, u), 0) == (if u.routed {
            1nat
        } else {
            0
        }) + (if u.shared {
            1nat
        } else {
            0
        }),
{
    let a = fetch_ops(s, u.tier, Buf::TierOut(u.tier));
    let b = fetch_ops(s, u.tier, Buf::TierSharedOut(u.tier));
    let e = Seq::<Op>::empty();
    assert(joins(a, 0) == 1 && joins(b, 0) == 1) by {
        reveal_with_fuel(joins, 5);
    }
    lemma_joins(if u.routed { a } else { e }, if u.shared { b } else { e }, 0);
}

proof fn lemma_tier_joins(s: &Shape, us: Seq<TierUse>, bias: bool, n: int)
    requires
        0 <= n <= us.len(),
    ensures
        joins(tiers_ops(s, us, bias, n), 0) == 0,
        joins(gathers_ops(s, us, n), 0) == partials(us, n),
    decreases n,
{
    if n > 0 {
        lemma_tier_joins(s, us, bias, n - 1);
        lemma_tier_part_joins(s, us[n - 1], bias);
        lemma_gather_joins(s, us[n - 1]);
        lemma_joins(tiers_ops(s, us, bias, n - 1), tier_ops(s, us[n - 1], bias), 0);
        lemma_joins(gathers_ops(s, us, n - 1), gather_ops(s, us[n - 1]), 0);
    }
}

proof fn lemma_primary_joins(s: &Shape, m: MoeFacts)
    ensures
        joins(check_ops(s, m), 0) == 0,
        joins(routed_ops(s, m), 0) == 0,
        joins(bank_ops(s, m), 0) == (if m.shared_pass {
            1nat
        } else {
            0
        }),
{
    let lane = pass_ops(s, Refs::Lane, Buf::ExpertMid, Buf::MoeOut);
    let routed = pass_ops(s, Refs::Routed, Buf::ExpertMid, Buf::MoeOut);
    let bank = pass_ops(s, Refs::Shared, Buf::ExpertMid, Buf::FfnOut);
    lemma_pass_joins(s, Refs::Lane, Buf::ExpertMid, Buf::MoeOut);
    lemma_pass_joins(s, Refs::Routed, Buf::ExpertMid, Buf::MoeOut);
    lemma_pass_joins(s, Refs::Shared, Buf::ExpertMid, Buf::FfnOut);
    let c0 = seq![Op::PutRefs(Refs::Lane)];
    let c1 = seq![Op::ReadBack, Op::PutRefs(Refs::Routed)];
    let b0 = seq![Op::PutRefs(Refs::Shared)];
    let b1 = seq![Op::AddIn { dst: Buf::MoeOut, src: Buf::FfnOut }];
    let r1 = seq![Op::DownBias { dst: Buf::MoeOut, refs: Refs::Routed }];
    let grouped = seq![
        Op::Pair { dst: Buf::ExpertMid, refs: Refs::Routed, grouped: true },
        Op::Quantize { dst: Buf::MidBlocks, src: Buf::ExpertMid, width: mid_width(s) },
        Op::Zero { buf: Buf::SlotSums },
        Op::Down { dst: Buf::SlotSums, refs: Refs::Routed, grouped: true },
        Op::SumSlots,
    ];
    assert(joins(c0, 0) == 0 && joins(c1, 0) == 0 && joins(b0, 0) == 0 && joins(b1, 0) == 1
        && joins(r1, 0) == 0) by {
        reveal_with_fuel(joins, 3);
    }
    assert(joins(grouped, 0) == 0) by {
        reveal_with_fuel(joins, 6);
    }
    lemma_joins(c0, lane, 0);
    lemma_joins(c0 + lane, c1, 0);
    lemma_joins(b0, bank, 0);
    lemma_joins(b0 + bank, b1, 0);
    lemma_joins(routed, r1, 0);
    lemma_joins(grouped, r1, 0);
}

proof fn lemma_closing_joins(s: &Shape, m: MoeFacts, f: FfnFacts)
    ensures
        joins(lane_ops(m), 0) == (if m.lanes {
            1nat
        } else {
            0
        }),
        joins(finish_ops(s, f), 0) == 0,
        joins(mlp_conv_ops(s, f.conv), 0) == 0,
        joins(stream_ops(f), 0) == 0,
{
    let add = seq![Op::Add { dst: Buf::Cur, a: Buf::AfterAttn, b: Buf::FfnOut }];
    lemma_joins(add, scale_ops(Buf::Cur, f.out_scale), 0);
    reveal_with_fuel(joins, 4);
}

/// Every partial sum joins the routed output once: each tier's routed and
/// shared parts, the shared bank's pass, and the lanes.
pub proof fn every_partial_joins_once(s: &Shape, us: Seq<TierUse>, m: MoeFacts, f: FfnFacts)
    ensures
        joins(moe_after_ops(s, us, m, f), 0) == partials(us, us.len() as int) + (if m.shared_pass {
            1nat
        } else {
            0
        }) + (if m.lanes {
            1nat
        } else {
            0
        }),
{
    let n = us.len() as int;
    lemma_tier_joins(s, us, m.bias, n);
    lemma_primary_joins(s, m);
    lemma_closing_joins(s, m, f);
    let a0 = seq![Op::PutRefs(Refs::Routed)];
    assert(joins(a0, 0) == 0) by {
        reveal_with_fuel(joins, 2);
    }
    let a1 = a0 + tiers_ops(s, us, m.bias, n);
    lemma_joins(a0, tiers_ops(s, us, m.bias, n), 0);
    let a2 = a1 + check_ops(s, m);
    lemma_joins(a1, check_ops(s, m), 0);
    let a3 = a2 + routed_ops(s, m);
    lemma_joins(a2, routed_ops(s, m), 0);
    let a4 = a3 + bank_ops(s, m);
    lemma_joins(a3, bank_ops(s, m), 0);
    let a5 = a4 + gathers_ops(s, us, n);
    lemma_joins(a4, gathers_ops(s, us, n), 0);
    let a6 = a5 + lane_ops(m);
    lemma_joins(a5, lane_ops(m), 0);
    let a7 = a6 + finish_ops(s, f);
    lemma_joins(a6, finish_ops(s, f), 0);
    let a8 = a7 + mlp_conv_ops(s, f.conv);
    lemma_joins(a7, mlp_conv_ops(s, f.conv), 0);
    lemma_joins(a8, stream_ops(f), 0);
}

proof fn lemma_pass(s: &Shape, refs: Refs, mid: Buf, out: Buf, have: Set<Buf>, card: Place)
    requires
        have.contains(pair_inputs(refs).0),
        have.contains(pair_inputs(refs).1),
    ensures
        makes(pass_ops(s, refs, mid, out), have, card, out),
{
    reveal_with_fuel(sound, 4);
    reveal_with_fuel(after, 4);
    reveal_with_fuel(card_after, 4);
}

proof fn lemma_tier_in(s: &Shape, u: TierUse, have: Set<Buf>, card: Place)
    requires
        have.contains(Buf::Normed),
        have.contains(Buf::Weights),
    ensures
        sound(tier_in_ops(s, u), 0, have),
        after(tier_in_ops(s, u), 0, have).contains(Buf::TierWeights(u.tier)),
        after(tier_in_ops(s, u), 0, have).contains(Buf::TierBlocks(u.tier)),
        card_after(tier_in_ops(s, u), 0, card) == Place::Tier(u.tier),
{
    reveal_with_fuel(sound, 7);
    reveal_with_fuel(after, 7);
    reveal_with_fuel(card_after, 7);
}

proof fn lemma_tier_routed(s: &Shape, u: TierUse, bias: bool, have: Set<Buf>, card: Place)
    requires
        have.contains(Buf::TierWeights(u.tier)),
        have.contains(Buf::TierBlocks(u.tier)),
    ensures
        sound(tier_routed_ops(s, u, bias), 0, have),
        u.routed ==> after(tier_routed_ops(s, u, bias), 0, have).contains(Buf::TierOut(u.tier)),
        card_after(tier_routed_ops(s, u, bias), 0, card) == card,
        sound(tier_shared_ops(s, u), 0, have),
        u.shared ==> after(tier_shared_ops(s, u), 0, have).contains(Buf::TierSharedOut(u.tier)),
        card_after(tier_shared_ops(s, u), 0, card) == card,
{
    let t = u.tier;
    let pass = pass_ops(s, Refs::Tier(t), Buf::TierMid(t), Buf::TierOut(t));
    let b = seq![Op::DownBias { dst: Buf::TierOut(t), refs: Refs::Tier(t) }];
    lemma_pass(s, Refs::Tier(t), Buf::TierMid(t), Buf::TierOut(t), have, card);
    lemma_pass(s, Refs::TierShared(t), Buf::TierMid(t), Buf::TierSharedOut(t), have, card);
    lemma_grows(pass, 0, have, Buf::TierWeights(t));
    assert(makes(b, after(pass, 0, have), card, Buf::TierOut(t))) by {
        reveal_with_fuel(sound, 2);
        reveal_with_fuel(after, 2);
        reveal_with_fuel(card_after, 2);
    }
    lemma_step(pass, b, have, card);
}

proof fn lemma_tier(s: &Shape, u: TierUse, bias: bool, have: Set<Buf>)
    requires
        have.contains(Buf::Normed),
        have.contains(Buf::Weights),
    ensures
        sound(tier_ops(s, u, bias), 0, have),
        card_after(tier_ops(s, u, bias), 0, Place::Primary) == Place::Primary,
        u.routed ==> after(tier_ops(s, u, bias), 0, have).contains(Buf::TierOut(u.tier)),
        u.shared ==> after(tier_ops(s, u, bias), 0, have).contains(Buf::TierSharedOut(u.tier)),
{
    let pr = Place::Primary;
    let a = tier_in_ops(s, u);
    let b = tier_routed_ops(s, u, bias);
    let c = tier_shared_ops(s, u);
    let d = seq![Op::On(pr)];
    let t = Place::Tier(u.tier);
    lemma_tier_in(s, u, have, pr);
    lemma_tier_routed(s, u, bias, after(a, 0, have), t);
    lemma_step(a, b, have, pr);
    lemma_tier_routed(s, u, bias, after(a + b, 0, have), t);
    lemma_step(a + b, c, have, pr);
    assert(sound(d, 0, after(a + b + c, 0, have)) && card_after(d, 0, t) == pr) by {
        reveal_with_fuel(sound, 2);
        reveal_with_fuel(card_after, 2);
    }
    lemma_step(a + b + c, d, have, pr);
}

/// Every tier among the first `n` that had work has left its sums.
pub open spec fn summed(us: Seq<TierUse>, have: Set<Buf>, n: int) -> bool {
    forall|i: int|
        0 <= i < n ==> {
            &&& (#[trigger] us[i]).routed ==> have.contains(Buf::TierOut(us[i].tier))
            &&& us[i].shared ==> have.contains(Buf::TierSharedOut(us[i].tier))
        }
}

proof fn lemma_tiers(s: &Shape, us: Seq<TierUse>, bias: bool, n: int, have: Set<Buf>)
    requires
        0 <= n <= us.len(),
        have.contains(Buf::Normed),
        have.contains(Buf::Weights),
    ensures
        runs(tiers_ops(s, us, bias, n), have, Place::Primary),
        summed(us, after(tiers_ops(s, us, bias, n), 0, have), n),
        forall|b: Buf|
            have.contains(b) ==> #[trigger] after(tiers_ops(s, us, bias, n), 0, have).contains(b),
    decreases n,
{
    if n > 0 {
        lemma_tiers(s, us, bias, n - 1, have);
        let a = tiers_ops(s, us, bias, n - 1);
        let t = tier_ops(s, us[n - 1], bias);
        lemma_tier(s, us[n - 1], bias, after(a, 0, have));
        lemma_step(a, t, have, Place::Primary);
    }
}

proof fn lemma_gather(s: &Shape, u: TierUse, have: Set<Buf>)
    requires
        have.contains(Buf::MoeOut),
        u.routed ==> have.contains(Buf::TierOut(u.tier)),
        u.shared ==> have.contains(Buf::TierSharedOut(u.tier)),
    ensures
        makes(gather_ops(s, u), have, Place::Primary, Buf::MoeOut),
{
    let pr = Place::Primary;
    let e = Seq::<Op>::empty();
    let a = if u.routed {
        fetch_ops(s, u.tier, Buf::TierOut(u.tier))
    } else {
        e
    };
    let b = if u.shared {
        fetch_ops(s, u.tier, Buf::TierSharedOut(u.tier))
    } else {
        e
    };
    assert(makes(a, have, pr, Buf::MoeOut)) by {
        reveal_with_fuel(sound, 5);
        reveal_with_fuel(after, 5);
        reveal_with_fuel(card_after, 5);
    }
    let h = after(a, 0, have);
    if u.shared {
        lemma_grows(a, 0, have, Buf::TierSharedOut(u.tier));
    }
    assert(makes(b, h, pr, Buf::MoeOut)) by {
        reveal_with_fuel(sound, 5);
        reveal_with_fuel(after, 5);
        reveal_with_fuel(card_after, 5);
    }
    lemma_step(a, b, have, pr);
}

proof fn lemma_gathers(s: &Shape, us: Seq<TierUse>, n: int, have: Set<Buf>)
    requires
        0 <= n <= us.len(),
        have.contains(Buf::MoeOut),
        summed(us, have, n),
    ensures
        makes(gathers_ops(s, us, n), have, Place::Primary, Buf::MoeOut),
        forall|b: Buf| have.contains(b) ==> #[trigger] after(gathers_ops(s, us, n), 0, have).contains(b),
    decreases n,
{
    if n > 0 {
        lemma_gathers(s, us, n - 1, have);
        let a = gathers_ops(s, us, n - 1);
        assert(us[n - 1].routed ==> have.contains(Buf::TierOut(us[n - 1].tier)));
        lemma_gather(s, us[n - 1], after(a, 0, have));
        lemma_step(a, gather_ops(s, us[n - 1]), have, Place::Primary);
    }
}

proof fn lemma_check(s: &Shape, m: MoeFacts, have: Set<Buf>, card: Place)
    requires
        have.contains(Buf::Weights),
        have.contains(Buf::Blocks),
    ensures
        makes(check_ops(s, m), have, card, Buf::Weights),
{
    let c0 = seq![Op::PutRefs(Refs::Lane)];
    let lane = pass_ops(s, Refs::Lane, Buf::ExpertMid, Buf::MoeOut);
    let c1 = seq![Op::ReadBack, Op::PutRefs(Refs::Routed)];
    assert(sound(c0, 0, have) && card_after(c0, 0, card) == card) by {
        reveal_with_fuel(sound, 2);
        reveal_with_fuel(card_after, 2);
    }
    lemma_grows(c0, 0, have, Buf::Weights);
    lemma_grows(c0, 0, have, Buf::Blocks);
    lemma_pass(s, Refs::Lane, Buf::ExpertMid, Buf::MoeOut, after(c0, 0, have), card);
    lemma_step(c0, lane, have, card);
    let h = after(c0 + lane, 0, have);
    assert(sound(c1, 0, h) && card_after(c1, 0, card) == card) by {
        reveal_with_fuel(sound, 3);
        reveal_with_fuel(card_after, 3);
    }
    lemma_step(c0 + lane, c1, have, card);
    lemma_grows(check_ops(s, m), 0, have, Buf::Weights);
}

proof fn lemma_routed(s: &Shape, m: MoeFacts, have: Set<Buf>, card: Place)
    requires
        have.contains(Buf::Weights),
        have.contains(Buf::Blocks),
    ensures
        makes(routed_ops(s, m), have, card, Buf::MoeOut),
{
    let run = if m.grouped {
        seq![
            Op::Pair { dst: Buf::ExpertMid, refs: Refs::Routed, grouped: true },
            Op::Quantize { dst: Buf::MidBlocks, src: Buf::ExpertMid, width: mid_width(s) },
            Op::Zero { buf: Buf::SlotSums },
            Op::Down { dst: Buf::SlotSums, refs: Refs::Routed, grouped: true },
            Op::SumSlots,
        ]
    } else {
        pass_ops(s, Refs::Routed, Buf::ExpertMid, Buf::MoeOut)
    };
    let b = seq![Op::DownBias { dst: Buf::MoeOut, refs: Refs::Routed }];
    assert(makes(run, have, card, Buf::MoeOut)) by {
        reveal_with_fuel(sound, 6);
        reveal_with_fuel(after, 6);
        reveal_with_fuel(card_after, 6);
    }
    lemma_grows(run, 0, have, Buf::Weights);
    assert(makes(b, after(run, 0, have), card, Buf::MoeOut)) by {
        reveal_with_fuel(sound, 2);
        reveal_with_fuel(after, 2);
        reveal_with_fuel(card_after, 2);
    }
    lemma_step(run, b, have, card);
}

proof fn lemma_bank(s: &Shape, m: MoeFacts, have: Set<Buf>, card: Place)
    requires
        have.contains(Buf::Weights),
        have.contains(Buf::Blocks),
        have.contains(Buf::MoeOut),
    ensures
        makes(bank_ops(s, m), have, card, Buf::MoeOut),
{
    let b0 = seq![Op::PutRefs(Refs::Shared)];
    let pass = pass_ops(s, Refs::Shared, Buf::ExpertMid, Buf::FfnOut);
    let b1 = seq![Op::AddIn { dst: Buf::MoeOut, src: Buf::FfnOut }];
    assert(sound(b0, 0, have) && card_after(b0, 0, card) == card) by {
        reveal_with_fuel(sound, 2);
        reveal_with_fuel(card_after, 2);
    }
    lemma_grows(b0, 0, have, Buf::Weights);
    lemma_grows(b0, 0, have, Buf::Blocks);
    lemma_grows(b0, 0, have, Buf::MoeOut);
    lemma_pass(s, Refs::Shared, Buf::ExpertMid, Buf::FfnOut, after(b0, 0, have), card);
    lemma_step(b0, pass, have, card);
    let h = after(b0 + pass, 0, have);
    assert(makes(b1, h, card, Buf::MoeOut)) by {
        reveal_with_fuel(sound, 2);
        reveal_with_fuel(after, 2);
        reveal_with_fuel(card_after, 2);
    }
    lemma_step(b0 + pass, b1, have, card);
    if !m.shared_pass {
        assert(makes(bank_ops(s, m), have, card, Buf::MoeOut)) by {
            reveal_with_fuel(sound, 1);
            reveal_with_fuel(after, 1);
            reveal_with_fuel(card_after, 1);
        }
    }
}

proof fn lemma_closing(s: &Shape, m: MoeFacts, f: FfnFacts, have: Set<Buf>, card: Place)
    requires
        have.contains(Buf::MoeOut),
        have.contains(Buf::SharedOut),
        have.contains(Buf::AfterAttn),
    ensures
        makes(lane_ops(m), have, card, Buf::MoeOut),
        makes(finish_ops(s, f), have, card, Buf::FfnOut),
        have.contains(Buf::FfnOut) ==> makes(mlp_conv_ops(s, f.conv), have, card, Buf::FfnOut),
        have.contains(Buf::FfnOut) ==> makes(stream_ops(f), have, card, Buf::Cur),
{
    reveal_with_fuel(sound, 4);
    reveal_with_fuel(after, 4);
    reveal_with_fuel(card_after, 4);
}

/// What is launched behind the resolve reads nothing before it is written,
/// whatever the resolve decided; it ends on the primary card and writes the
/// stream.
pub proof fn moe_after_is_sound(s: &Shape, us: Seq<TierUse>, m: MoeFacts, f: FfnFacts)
    ensures
        runs(moe_after_ops(s, us, m, f), moe_inputs(), Place::Primary),
        after(moe_after_ops(s, us, m, f), 0, moe_inputs()).contains(Buf::Cur),
{
    let h0 = moe_inputs();
    let pr = Place::Primary;
    let n = us.len() as int;
    let a0 = seq![Op::PutRefs(Refs::Routed)];
    assert(sound(a0, 0, h0) && card_after(a0, 0, pr) == pr && after(a0, 0, h0) == h0) by {
        reveal_with_fuel(sound, 2);
        reveal_with_fuel(after, 2);
        reveal_with_fuel(card_after, 2);
    }
    lemma_tiers(s, us, m.bias, n, h0);
    let t = tiers_ops(s, us, m.bias, n);
    lemma_step(a0, t, h0, pr);
    let a1 = a0 + t;
    let h1 = after(a1, 0, h0);
    assert(h1.contains(Buf::Weights) && h1.contains(Buf::Blocks) && h1.contains(Buf::SharedOut)
        && h1.contains(Buf::AfterAttn));
    lemma_check(s, m, h1, pr);
    lemma_step(a1, check_ops(s, m), h0, pr);
    let a2 = a1 + check_ops(s, m);
    lemma_routed(s, m, after(a2, 0, h0), pr);
    lemma_step(a2, routed_ops(s, m), h0, pr);
    let a3 = a2 + routed_ops(s, m);
    lemma_bank(s, m, after(a3, 0, h0), pr);
    lemma_step(a3, bank_ops(s, m), h0, pr);
    let a4 = a3 + bank_ops(s, m);
    let h4 = after(a4, 0, h0);
    assert(summed(us, h4, n)) by {
        assert forall|i: int| 0 <= i < n implies {
            &&& (#[trigger] us[i]).routed ==> h4.contains(Buf::TierOut(us[i].tier))
            &&& us[i].shared ==> h4.contains(Buf::TierSharedOut(us[i].tier))
        } by {
            assert(us[i].routed ==> h1.contains(Buf::TierOut(us[i].tier)));
            assert(us[i].shared ==> h1.contains(Buf::TierSharedOut(us[i].tier)));
        }
    }
    lemma_gathers(s, us, n, h4);
    lemma_step(a4, gathers_ops(s, us, n), h0, pr);
    let a5 = a4 + gathers_ops(s, us, n);
    lemma_closing(s, m, f, after(a5, 0, h0), pr);
    lemma_step(a5, lane_ops(m), h0, pr);
    let a6 = a5 + lane_ops(m);
    lemma_closing(s, m, f, after(a6, 0, h0), pr);
    lemma_step(a6, finish_ops(s, f), h0, pr);
    let a7 = a6 + finish_ops(s, f);
    lemma_closing(s, m, f, after(a7, 0, h0), pr);
    lemma_step(a7, mlp_conv_ops(s, f.conv), h0, pr);
    let a8 = a7 + mlp_conv_ops(s, f.conv);
    lemma_closing(s, m, f, after(a8, 0, h0), pr);
    lemma_step(a8, stream_ops(f), h0, pr);
}

/// The references that lie in the primary's buffer once `op` has run.
pub open spec fn put(live: Option<Refs>, op: Op) -> Option<Refs> {
    match op {
        Op::PutRefs(r) => match r {
            Refs::Routed | Refs::Shared | Refs::Lane => Some(r),
            _ => live,
        },
        _ => live,
    }
}

/// A launch over the primary's slots goes by the references that lie there.
pub open spec fn goes_by(live: Option<Refs>, op: Op) -> bool {
    let r = match op {
        Op::Pair { refs, grouped, .. } => if grouped {
            None
        } else {
            Some(refs)
        },
        Op::Down { refs, grouped, .. } => if grouped {
            None
        } else {
            Some(refs)
        },
        Op::DownBias { refs, .. } => Some(refs),
        _ => None,
    };
    match r {
        Some(x) => match x {
            Refs::Routed | Refs::Shared | Refs::Lane => live == Some(x),
            _ => true,
        },
        None => true,
    }
}

/// The references in the primary's buffer once the launches from `i` on have
/// run.
pub open spec fn live_after(ops: Seq<Op>, i: int, live: Option<Refs>) -> Option<Refs>
    decreases ops.len() - i,
{
    if i >= ops.len() {
        live
    } else {
        live_after(ops, i + 1, put(live, ops[i]))
    }
}

/// Every launch from `i` on goes by the references that lie there.
pub open spec fn refs_hold(ops: Seq<Op>, i: int, live: Option<Refs>) -> bool
    decreases ops.len() - i,
{
    if i >= ops.len() {
        true
    } else {
        goes_by(live, ops[i]) && refs_hold(ops, i + 1, put(live, ops[i]))
    }
}

proof fn lemma_refs_shift(a: Seq<Op>, b: Seq<Op>, i: int, live: Option<Refs>)
    requires
        0 <= i <= b.len(),
    ensures
        refs_hold(a + b, a.len() + i, live) == refs_hold(b, i, live),
        live_after(a + b, a.len() + i, live) == live_after(b, i, live),
    decreases b.len() - i,
{
    if i < b.len() {
        assert((a + b)[a.len() + i] == b[i]);
        lemma_refs_shift(a, b, i + 1, put(live, b[i]));
    }
}

proof fn lemma_refs(a: Seq<Op>, b: Seq<Op>, i: int, live: Option<Refs>)
    requires
        0 <= i <= a.len(),
    ensures
        refs_hold(a + b, i, live) == (refs_hold(a, i, live) && refs_hold(b, 0, live_after(a, i, live))),
        live_after(a + b, i, live) == live_after(b, 0, live_after(a, i, live)),
    decreases a.len() - i,
{
    if i < a.len() {
        assert((a + b)[i] == a[i]);
        lemma_refs(a, b, i + 1, put(live, a[i]));
    } else {
        lemma_refs_shift(a, b, 0, live);
    }
}

proof fn lemma_pass_refs(s: &Shape, refs: Refs, mid: Buf, out: Buf, live: Option<Refs>)
    requires
        refs is Tier || refs is TierShared || live == Some(refs),
    ensures
        refs_hold(pass_ops(s, refs, mid, out), 0, live),
        live_after(pass_ops(s, refs, mid, out), 0, live) == live,
{
    reveal_with_fuel(refs_hold, 4);
    reveal_with_fuel(live_after, 4);
}

proof fn lemma_tier_refs(s: &Shape, u: TierUse, bias: bool, live: Option<Refs>)
    ensures
        refs_hold(tier_ops(s, u, bias), 0, live),
        live_after(tier_ops(s, u, bias), 0, live) == live,
{
    let t = u.tier;
    let a = tier_in_ops(s, u);
    let b = tier_routed_ops(s, u, bias);
    let c = tier_shared_ops(s, u);
    let d = seq![Op::On(Place::Primary)];
    let pass = pass_ops(s, Refs::Tier(t), Buf::TierMid(t), Buf::TierOut(t));
    let bb = seq![Op::DownBias { dst: Buf::TierOut(t), refs: Refs::Tier(t) }];
    lemma_pass_refs(s, Refs::Tier(t), Buf::TierMid(t), Buf::TierOut(t), live);
    lemma_pass_refs(s, Refs::TierShared(t), Buf::TierMid(t), Buf::TierSharedOut(t), live);
    assert(refs_hold(bb, 0, live) && live_after(bb, 0, live) == live && refs_hold(d, 0, live)
        && live_after(d, 0, live) == live) by {
        reveal_with_fuel(refs_hold, 2);
        reveal_with_fuel(live_after, 2);
    }
    lemma_refs(pass, bb, 0, live);
    assert(refs_hold(a, 0, live) && live_after(a, 0, live) == live) by {
        reveal_with_fuel(refs_hold, 7);
        reveal_with_fuel(live_after, 7);
    }
    lemma_refs(a, b, 0, live);
    lemma_refs(a + b, c, 0, live);
    lemma_refs(a + b + c, d, 0, live);
}

proof fn lemma_tiers_refs(s: &Shape, us: Seq<TierUse>, bias: bool, n: int, live: Option<Refs>)
    requires
        0 <= n <= us.len(),
    ensures
        refs_hold(tiers_ops(s, us, bias, n), 0, live),
        live_after(tiers_ops(s, us, bias, n), 0, live) == live,
        refs_hold(gathers_ops(s, us, n), 0, live),
        live_after(gathers_ops(s, us, n), 0, live) == live,
    decreases n,
{
    if n > 0 {
        let u = us[n - 1];
        lemma_tiers_refs(s, us, bias, n - 1, live);
        lemma_tier_refs(s, u, bias, live);
        lemma_refs(tiers_ops(s, us, bias, n - 1), tier_ops(s, u, bias), 0, live);
        let e = Seq::<Op>::empty();
        let a = if u.routed {
            fetch_ops(s, u.tier, Buf::TierOut(u.tier))
        } else {
            e
        };
        let b = if u.shared {
            fetch_ops(s, u.tier, Buf::TierSharedOut(u.tier))
        } else {
            e
        };
        assert(refs_hold(a, 0, live) && live_after(a, 0, live) == live && refs_hold(b, 0, live)
            && live_after(b, 0, live) == live) by {
            reveal_with_fuel(refs_hold, 5);
            reveal_with_fuel(live_after, 5);
        }
        lemma_refs(a, b, 0, live);
        lemma_refs(gathers_ops(s, us, n - 1), gather_ops(s, u), 0, live);
    }
}

proof fn lemma_primary_refs(s: &Shape, m: MoeFacts)
    ensures
        refs_hold(check_ops(s, m), 0, Some(Refs::Routed)),
        live_after(check_ops(s, m), 0, Some(Refs::Routed)) == Some(Refs::Routed),
        refs_hold(routed_ops(s, m), 0, Some(Refs::Routed)),
        live_after(routed_ops(s, m), 0, Some(Refs::Routed)) == Some(Refs::Routed),
        refs_hold(bank_ops(s, m), 0, Some(Refs::Routed)),
{
    let r = Some(Refs::Routed);
    let c0 = seq![Op::PutRefs(Refs::Lane)];
    let lane = pass_ops(s, Refs::Lane, Buf::ExpertMid, Buf::MoeOut);
    let c1 = seq![Op::ReadBack, Op::PutRefs(Refs::Routed)];
    let b0 = seq![Op::PutRefs(Refs::Shared)];
    let bank = pass_ops(s, Refs::Shared, Buf::ExpertMid, Buf::FfnOut);
    let b1 = seq![Op::AddIn { dst: Buf::MoeOut, src: Buf::FfnOut }];
    let d = seq![Op::DownBias { dst: Buf::MoeOut, refs: Refs::Routed }];
    let run = if m.grouped {
        seq![
            Op::Pair { dst: Buf::ExpertMid, refs: Refs::Routed, grouped: true },
            Op::Quantize { dst: Buf::MidBlocks, src: Buf::ExpertMid, width: mid_width(s) },
            Op::Zero { buf: Buf::SlotSums },
            Op::Down { dst: Buf::SlotSums, refs: Refs::Routed, grouped: true },
            Op::SumSlots,
        ]
    } else {
        pass_ops(s, Refs::Routed, Buf::ExpertMid, Buf::MoeOut)
    };
    lemma_pass_refs(s, Refs::Lane, Buf::ExpertMid, Buf::MoeOut, Some(Refs::Lane));
    lemma_pass_refs(s, Refs::Shared, Buf::ExpertMid, Buf::FfnOut, Some(Refs::Shared));
    assert(refs_hold(c0, 0, r) && live_after(c0, 0, r) == Some(Refs::Lane)) by {
        reveal_with_fuel(refs_hold, 2);
        reveal_with_fuel(live_after, 2);
    }
    assert(refs_hold(c1, 0, Some(Refs::Lane)) && live_after(c1, 0, Some(Refs::Lane)) == r) by {
        reveal_with_fuel(refs_hold, 3);
        reveal_with_fuel(live_after, 3);
    }
    assert(refs_hold(b0, 0, r) && live_after(b0, 0, r) == Some(Refs::Shared) && refs_hold(
        b1,
        0,
        Some(Refs::Shared),
    )) by {
        reveal_with_fuel(refs_hold, 2);
        reveal_with_fuel(live_after, 2);
    }
    assert(refs_hold(run, 0, r) && live_after(run, 0, r) == r && refs_hold(d, 0, r) && live_after(
        d,
        0,
        r,
    ) == r) by {
        reveal_with_fuel(refs_hold, 6);
        reveal_with_fuel(live_after, 6);
    }
    lemma_refs(c0, lane, 0, r);
    lemma_refs(c0 + lane, c1, 0, r);
    lemma_refs(b0, bank, 0, r);
    lemma_refs(b0 + bank, b1, 0, r);
    lemma_refs(run, d, 0, r);
}

proof fn lemma_closing_refs(s: &Shape, m: MoeFacts, f: FfnFacts, live: Option<Refs>)
    ensures
        refs_hold(lane_ops(m), 0, live),
        refs_hold(finish_ops(s, f), 0, live),
        refs_hold(mlp_conv_ops(s, f.conv), 0, live),
        refs_hold(stream_ops(f), 0, live),
{
    reveal_with_fuel(refs_hold, 4);
}

/// No expert launch goes by stale references: whatever else used the
/// primary's buffer, the references that a launch names lie there.
pub proof fn launches_see_their_references(s: &Shape, us: Seq<TierUse>, m: MoeFacts, f: FfnFacts)
    ensures
        refs_hold(moe_after_ops(s, us, m, f), 0, None),
{
    let n = us.len() as int;
    let none = None::<Refs>;
    let r = Some(Refs::Routed);
    let a0 = seq![Op::PutRefs(Refs::Routed)];
    assert(refs_hold(a0, 0, none) && live_after(a0, 0, none) == r) by {
        reveal_with_fuel(refs_hold, 2);
        reveal_with_fuel(live_after, 2);
    }
    lemma_tiers_refs(s, us, m.bias, n, r);
    lemma_primary_refs(s, m);
    let a1 = a0 + tiers_ops(s, us, m.bias, n);
    lemma_refs(a0, tiers_ops(s, us, m.bias, n), 0, none);
    let a2 = a1 + check_ops(s, m);
    lemma_refs(a1, check_ops(s, m), 0, none);
    let a3 = a2 + routed_ops(s, m);
    lemma_refs(a2, routed_ops(s, m), 0, none);
    let a4 = a3 + bank_ops(s, m);
    lemma_refs(a3, bank_ops(s, m), 0, none);
    lemma_tiers_refs(s, us, m.bias, n, live_after(a4, 0, none));
    let a5 = a4 + gathers_ops(s, us, n);
    lemma_refs(a4, gathers_ops(s, us, n), 0, none);
    lemma_closing_refs(s, m, f, live_after(a5, 0, none));
    let a6 = a5 + lane_ops(m);
    lemma_refs(a5, lane_ops(m), 0, none);
    lemma_closing_refs(s, m, f, live_after(a6, 0, none));
    let a7 = a6 + finish_ops(s, f);
    lemma_refs(a6, finish_ops(s, f), 0, none);
    lemma_closing_refs(s, m, f, live_after(a7, 0, none));
    let a8 = a7 + mlp_conv_ops(s, f.conv);
    lemma_refs(a7, mlp_conv_ops(s, f.conv), 0, none);
    lemma_closing_refs(s, m, f, live_after(a8, 0, none));
    lemma_refs(a8, stream_ops(f), 0, none);
}

/// The reference array that a slot's expert is listed in; `checked` says that
/// the primary computes the workers' experts too, to compare.
pub open spec fn listed_in(u: SlotUse, checked: bool) -> Option<Refs> {
    match u {
        SlotUse::Null => None,
        SlotUse::Tier { tier, bank_pass } => Some(
            if bank_pass {
                Refs::TierShared(tier)
            } else {
                Refs::Tier(tier)
            },
        ),
        SlotUse::Lane => if checked {
            Some(Refs::Lane)
        } else {
            None
        },
        SlotUse::Bank => Some(Refs::Shared),
        SlotUse::Primary => Some(Refs::Routed),
    }
}

/// The reference array that a slot's expert is listed in.
pub fn refs_of(u: SlotUse, checked: bool) -> (r: Option<Refs>)
    ensures
        r == listed_in(u, checked),
{
    match u {
        SlotUse::Null => None,
        SlotUse::Tier { tier, bank_pass } => Some(
            if bank_pass {
                Refs::TierShared(tier)
            } else {
                Refs::Tier(tier)
            },
        ),
        SlotUse::Lane => if checked {
            Some(Refs::Lane)
        } else {
            None
        },
        SlotUse::Bank => Some(Refs::Shared),
        SlotUse::Primary => Some(Refs::Routed),
    }
}

/// A tier's slots are listed for it exactly when its pass serves them.
pub proof fn tiers_list_what_they_serve(u: SlotUse, checked: bool, tier: usize)
    ensures
        (listed_in(u, checked) == Some(Refs::Tier(tier))) == (u == SlotUse::Tier {
            tier,
            bank_pass: false,
        }),
        (listed_in(u, checked) == Some(Refs::TierShared(tier))) == (u == SlotUse::Tier {
            tier,
            bank_pass: true,
        }),
{
}

/// What a layer has for its feed-forward half. Scales are float bits.
#[derive(Clone, Copy, Debug, PartialEq, Eq, Structural)]
pub struct FfnParts {
    pub scale: Option<u32>,
    pub conv: bool,
    pub sandwich: bool,
    pub router_bias: bool,
    pub down_scale: bool,
    pub shared_expert: bool,
    /// The shared experts are slots of the bank.
    pub sink: bool,
    pub out_scale: Option<u32>,
    pub next_moe: bool,
}

/// A scale that does something.
pub open spec fn worth(bits: Option<u32>) -> Option<u32> {
    match bits {
        Some(b) if b != F32_ONE => Some(b),
        _ => None,
    }
}

fn worth_of(bits: Option<u32>) -> (r: Option<u32>)
    ensures
        r == worth(bits),
{
    match bits {
        Some(b) => if b != F32_ONE {
            Some(b)
        } else {
            None
        },
        None => None,
    }
}

/// What the feed-forward half goes by: a factor of one is no factor, a lone
/// token predicts the next layer's experts unless reading ahead is off, and
/// the shared expert runs by itself unless it is a slot of the bank.
pub fn ffn_facts(s: &Shape, p: FfnParts, n_tok: u32, no_prefetch: bool) -> (f: FfnFacts)
    ensures
        f == (FfnFacts {
            scale: worth(p.scale),
            conv: p.conv,
            sandwich: p.sandwich,
            router_bias: p.router_bias,
            down_scale: p.down_scale,
            predict: n_tok == 1 && p.next_moe && !no_prefetch,
            shared: if p.shared_expert && !p.sink {
                Some(
                    if p.sandwich {
                        s.n_ff_dense
                    } else {
                        s.n_ff_exp
                    },
                )
            } else {
                None
            },
            out_scale: worth(p.out_scale),
        }),
{
    FfnFacts {
        scale: worth_of(p.scale),
        conv: p.conv,
        sandwich: p.sandwich,
        router_bias: p.router_bias,
        down_scale: p.down_scale,
        predict: n_tok == 1 && p.next_moe && !no_prefetch,
        shared: if p.shared_expert && !p.sink {
            Some(
                if p.sandwich {
                    s.n_ff_dense
                } else {
                    s.n_ff_exp
                },
            )
        } else {
            None
        },
        out_scale: worth_of(p.out_scale),
    }
}

} // verus!
