//! The launches around the layers: a draft's own layers, the extra layer
//! that drafts one token, and the head.
//!
//! A buffer is known by how many of its leading rows are filled.

use vstd::prelude::*;

use crate::dflash;
use crate::dflash::{DraftShape, RING_CAP};
use crate::floats;
use crate::graph::Width;
use crate::header;
use crate::shape::{F32_ONE, F32_ZERO};

verus! {

/// A buffer of a draft's run.
#[derive(Clone, Copy, Debug, PartialEq, Eq, Hash, Structural)]
pub enum DraftBuf {
    /// Captured rows of the target, side by side.
    FeatIn,
    /// The same, fused.
    Feat,
    /// The drafted block.
    Block,
    BlockNormed,
    /// Context rows, then block rows.
    Keys,
    Values,
    Queries,
    Mixed,
    Delta,
    GateAct,
    UpAct,
    Mid,
    /// The residual stream of the target.
    Stream,
    /// The last hidden row of the target.
    Hidden,
    Raw,
    HiddenNormed,
    EmbNormed,
    /// Embeddings and hidden rows by turns.
    Pairs,
    Normed,
    HeadBlocks,
    Logits,
}

/// A weight of a draft, of its layer where it belongs to one.
#[derive(Clone, Copy, Debug, PartialEq, Eq, Hash, Structural)]
pub enum DraftWeight {
    Fuse,
    HiddenNorm,
    AttnNorm(u32),
    K(u32),
    V(u32),
    KNorm(u32),
    Q(u32),
    QNorm(u32),
    Out(u32),
    FfnNorm(u32),
    Gate(u32),
    Up(u32),
    Down(u32),
    OutNorm,
    /// Norms of the extra layer's two inputs, their joint projection, and
    /// the norm before the head.
    TokenNorm,
    StreamNorm,
    Joint,
    HeadNorm,
}

/// One launch over rows.
#[derive(Clone, Copy, Debug, PartialEq, Eq, Structural)]
pub enum DraftOp {
    /// Rows out of the ring, from slot `first` on.
    Gather { first: u32, rows: u32 },
    /// Embed tokens.
    Embed { dst: DraftBuf, rows: u32 },
    Norm { dst: DraftBuf, src: DraftBuf, w: DraftWeight, rows: u32 },
    NormIn { buf: DraftBuf, w: DraftWeight, rows: u32 },
    /// A product, written from row `at` on.
    Mul { dst: DraftBuf, at: u32, w: DraftWeight, src: DraftBuf, inner: Width, outer: Width, rows: u32 },
    HeadNorm { buf: DraftBuf, w: DraftWeight, heads: u32, rows: u32 },
    /// Rotation, the first row at position `from`.
    Rope { buf: DraftBuf, heads: u32, from: u32, rows: u32 },
    /// Every row attends to every key.
    Attend { rows: u32, keys: u32 },
    AddIn { dst: DraftBuf, src: DraftBuf, rows: u32 },
    Swiglu { rows: u32 },
    CopyRows { dst: DraftBuf, to: u32, src: DraftBuf, from: u32, rows: u32 },
    /// The joint product of pairs.
    Join { rows: u32 },
    /// The head's input in quantized blocks.
    HeadBlocks { rows: u32 },
    Head { kq: bool, rows: u32 },
    Softcap { rows: u32 },
    ScaleLogits { rows: u32 },
    /// Bury the padding behind the vocabulary.
    MaskTail { rows: u32 },
}

/// Rows a launch reads, from the first on.
pub open spec fn needs(op: DraftOp) -> Seq<(DraftBuf, int)> {
    match op {
        DraftOp::Gather { .. } => seq![],
        DraftOp::Embed { .. } => seq![],
        DraftOp::Norm { src, rows, .. } => seq![(src, rows as int)],
        DraftOp::NormIn { buf, rows, .. } => seq![(buf, rows as int)],
        DraftOp::Mul { src, rows, .. } => seq![(src, rows as int)],
        DraftOp::HeadNorm { buf, rows, .. } => seq![(buf, rows as int)],
        DraftOp::Rope { buf, rows, .. } => seq![(buf, rows as int)],
        DraftOp::Attend { rows, keys } => seq![
            (DraftBuf::Queries, rows as int),
            (DraftBuf::Keys, keys as int),
            (DraftBuf::Values, keys as int),
        ],
        DraftOp::AddIn { dst, src, rows } => seq![(dst, rows as int), (src, rows as int)],
        DraftOp::Swiglu { rows } => seq![
            (DraftBuf::GateAct, rows as int),
            (DraftBuf::UpAct, rows as int),
        ],
        DraftOp::CopyRows { src, from, rows, .. } => seq![(src, from + rows)],
        DraftOp::Join { rows } => seq![(DraftBuf::Pairs, 2 * rows)],
        DraftOp::HeadBlocks { rows } => seq![(DraftBuf::Normed, rows as int)],
        DraftOp::Head { kq, rows } => seq![
            (
                if kq {
                    DraftBuf::HeadBlocks
                } else {
                    DraftBuf::Normed
                },
                rows as int,
            ),
        ],
        DraftOp::Softcap { rows } => seq![(DraftBuf::Logits, rows as int)],
        DraftOp::ScaleLogits { rows } => seq![(DraftBuf::Logits, rows as int)],
        DraftOp::MaskTail { rows } => seq![(DraftBuf::Logits, rows as int)],
    }
}

/// The stretch of rows a launch writes: its buffer, first row and length.
pub open spec fn fills(op: DraftOp) -> (DraftBuf, int, int) {
    match op {
        DraftOp::Gather { rows, .. } => (DraftBuf::FeatIn, 0, rows as int),
        DraftOp::Embed { dst, rows } => (dst, 0, rows as int),
        DraftOp::Norm { dst, rows, .. } => (dst, 0, rows as int),
        DraftOp::NormIn { buf, rows, .. } => (buf, 0, rows as int),
        DraftOp::Mul { dst, at, rows, .. } => (dst, at as int, rows as int),
        DraftOp::HeadNorm { buf, rows, .. } => (buf, 0, rows as int),
        DraftOp::Rope { buf, rows, .. } => (buf, 0, rows as int),
        DraftOp::Attend { rows, .. } => (DraftBuf::Mixed, 0, rows as int),
        DraftOp::AddIn { dst, rows, .. } => (dst, 0, rows as int),
        DraftOp::Swiglu { rows } => (DraftBuf::Mid, 0, rows as int),
        DraftOp::CopyRows { dst, to, rows, .. } => (dst, to as int, rows as int),
        DraftOp::Join { rows } => (DraftBuf::Stream, 0, rows as int),
        DraftOp::HeadBlocks { rows } => (DraftBuf::HeadBlocks, 0, rows as int),
        DraftOp::Head { rows, .. } => (DraftBuf::Logits, 0, rows as int),
        DraftOp::Softcap { rows } => (DraftBuf::Logits, 0, rows as int),
        DraftOp::ScaleLogits { rows } => (DraftBuf::Logits, 0, rows as int),
        DraftOp::MaskTail { rows } => (DraftBuf::Logits, 0, rows as int),
    }
}

/// How many leading rows of each buffer are filled.
pub type Filled = spec_fn(DraftBuf) -> int;

/// A stretch that touches the filled rows makes them longer; one behind a gap
/// does not.
pub open spec fn fill(f: Filled, w: (DraftBuf, int, int)) -> Filled {
    |b: DraftBuf|
        if b == w.0 && w.1 <= f(b) && f(b) < w.1 + w.2 {
            w.1 + w.2
        } else {
            f(b)
        }
}

/// Every row a launch reads is filled.
pub open spec fn met(f: Filled, op: DraftOp) -> bool {
    forall|k: int|
        0 <= k < needs(op).len() ==> f((#[trigger] needs(op)[k]).0) >= needs(op)[k].1
}

/// No launch from `i` on reads a row that has not been written.
pub open spec fn reads_filled(ops: Seq<DraftOp>, i: int, f: Filled) -> bool
    decreases ops.len() - i,
{
    if i >= ops.len() {
        true
    } else {
        met(f, ops[i]) && reads_filled(ops, i + 1, fill(f, fills(ops[i])))
    }
}

/// What is filled once the launches from `i` on have run.
pub open spec fn filled_after(ops: Seq<DraftOp>, i: int, f: Filled) -> Filled
    decreases ops.len() - i,
{
    if i >= ops.len() {
        f
    } else {
        filled_after(ops, i + 1, fill(f, fills(ops[i])))
    }
}

proof fn lemma_shift(a: Seq<DraftOp>, b: Seq<DraftOp>, i: int, f: Filled)
    requires
        0 <= i <= b.len(),
    ensures
        filled_after(a + b, a.len() + i, f) == filled_after(b, i, f),
        reads_filled(a + b, a.len() + i, f) == reads_filled(b, i, f),
    decreases b.len() - i,
{
    if i < b.len() {
        assert((a + b)[a.len() + i] == b[i]);
        lemma_shift(a, b, i + 1, fill(f, fills(b[i])));
    }
}

proof fn lemma_join(a: Seq<DraftOp>, b: Seq<DraftOp>, i: int, f: Filled)
    requires
        0 <= i <= a.len(),
    ensures
        filled_after(a + b, i, f) == filled_after(b, 0, filled_after(a, i, f)),
        reads_filled(a + b, i, f) == (reads_filled(a, i, f) && reads_filled(
            b,
            0,
            filled_after(a, i, f),
        )),
    decreases a.len() - i,
{
    if i < a.len() {
        assert((a + b)[i] == a[i]);
        lemma_join(a, b, i + 1, fill(f, fills(a[i])));
    } else {
        lemma_shift(a, b, 0, f);
    }
}

proof fn lemma_grows(ops: Seq<DraftOp>, i: int, f: Filled, b: DraftBuf)
    ensures
        filled_after(ops, i, f)(b) >= f(b),
    decreases ops.len() - i,
{
    if i < ops.len() {
        lemma_grows(ops, i + 1, fill(f, fills(ops[i])), b);
    }
}

/// What the launches of a draft go by.
#[derive(Clone, Copy, Debug, PartialEq, Eq, Structural)]
pub struct DraftDims {
    pub n_embd: u32,
    pub ff: u32,
    pub n_head: u32,
    pub n_kv: u32,
    pub head_dim: u32,
    pub n_layer: u32,
    /// Layers of the target whose rows it reads.
    pub captured: u32,
}

/// The dimensions of a draft.
pub fn dims_of(d: &DraftShape) -> (r: DraftDims)
    requires
        d.layer_ids@.len() <= u32::MAX,
    ensures
        r == (DraftDims {
            n_embd: d.n_embd,
            ff: d.ff,
            n_head: d.n_head,
            n_kv: d.n_kv,
            head_dim: d.head_dim,
            n_layer: d.n_layer,
            captured: d.layer_ids@.len() as u32,
        }),
{
    DraftDims {
        n_embd: d.n_embd,
        ff: d.ff,
        n_head: d.n_head,
        n_kv: d.n_kv,
        head_dim: d.head_dim,
        n_layer: d.n_layer,
        captured: d.layer_ids.len() as u32,
    }
}

/// What a weight is called in its file. `extra` is the index of the layer
/// that drafts one token.
pub open spec fn weight_name(w: DraftWeight, extra: u32) -> Seq<char> {
    match w {
        DraftWeight::AttnNorm(il) => header::blk_name(il as nat, "attn_norm.weight"@),
        DraftWeight::Q(il) => header::blk_name(il as nat, "attn_q.weight"@),
        DraftWeight::K(il) => header::blk_name(il as nat, "attn_k.weight"@),
        DraftWeight::V(il) => header::blk_name(il as nat, "attn_v.weight"@),
        DraftWeight::QNorm(il) => header::blk_name(il as nat, "attn_q_norm.weight"@),
        DraftWeight::KNorm(il) => header::blk_name(il as nat, "attn_k_norm.weight"@),
        DraftWeight::Out(il) => header::blk_name(il as nat, "attn_output.weight"@),
        DraftWeight::FfnNorm(il) => header::blk_name(il as nat, "post_attention_norm.weight"@),
        DraftWeight::Gate(il) => header::blk_name(il as nat, "ffn_gate.weight"@),
        DraftWeight::Up(il) => header::blk_name(il as nat, "ffn_up.weight"@),
        DraftWeight::Down(il) => header::blk_name(il as nat, "ffn_down.weight"@),
        DraftWeight::Fuse => "dflash_fc.weight"@,
        DraftWeight::HiddenNorm => "dflash_hidden_norm.weight"@,
        DraftWeight::OutNorm => "output_norm.weight"@,
        DraftWeight::TokenNorm => header::blk_name(extra as nat, "nextn.enorm.weight"@),
        DraftWeight::StreamNorm => header::blk_name(extra as nat, "nextn.hnorm.weight"@),
        DraftWeight::Joint => header::blk_name(extra as nat, "nextn.eh_proj.weight"@),
        DraftWeight::HeadNorm => header::blk_name(extra as nat, "nextn.shared_head_norm.weight"@),
    }
}

/// What a weight is called in its file. `extra` is the index of the layer
/// that drafts one token.
pub fn draft_name(w: DraftWeight, extra: u32) -> (n: String)
    ensures
        n@ == weight_name(w, extra),
{
    match w {
        DraftWeight::AttnNorm(il) => header::blk(il as u64, "attn_norm.weight"),
        DraftWeight::Q(il) => header::blk(il as u64, "attn_q.weight"),
        DraftWeight::K(il) => header::blk(il as u64, "attn_k.weight"),
        DraftWeight::V(il) => header::blk(il as u64, "attn_v.weight"),
        DraftWeight::QNorm(il) => header::blk(il as u64, "attn_q_norm.weight"),
        DraftWeight::KNorm(il) => header::blk(il as u64, "attn_k_norm.weight"),
        DraftWeight::Out(il) => header::blk(il as u64, "attn_output.weight"),
        DraftWeight::FfnNorm(il) => header::blk(il as u64, "post_attention_norm.weight"),
        DraftWeight::Gate(il) => header::blk(il as u64, "ffn_gate.weight"),
        DraftWeight::Up(il) => header::blk(il as u64, "ffn_up.weight"),
        DraftWeight::Down(il) => header::blk(il as u64, "ffn_down.weight"),
        DraftWeight::Fuse => String::from_str("dflash_fc.weight"),
        DraftWeight::HiddenNorm => String::from_str("dflash_hidden_norm.weight"),
        DraftWeight::OutNorm => String::from_str("output_norm.weight"),
        DraftWeight::TokenNorm => header::blk(extra as u64, "nextn.enorm.weight"),
        DraftWeight::StreamNorm => header::blk(extra as u64, "nextn.hnorm.weight"),
        DraftWeight::Joint => header::blk(extra as u64, "nextn.eh_proj.weight"),
        DraftWeight::HeadNorm => header::blk(extra as u64, "nextn.shared_head_norm.weight"),
    }
}

/// The weights of one layer of a draft.
pub open spec fn layer_weights(il: u32) -> Seq<DraftWeight> {
    seq![
        DraftWeight::AttnNorm(il),
        DraftWeight::Q(il),
        DraftWeight::K(il),
        DraftWeight::V(il),
        DraftWeight::QNorm(il),
        DraftWeight::KNorm(il),
        DraftWeight::Out(il),
        DraftWeight::FfnNorm(il),
        DraftWeight::Gate(il),
        DraftWeight::Up(il),
        DraftWeight::Down(il),
    ]
}

/// The weights of the first `n` layers of a draft.
pub open spec fn layers_weights(n: nat) -> Seq<DraftWeight>
    decreases n,
{
    if n == 0 {
        Seq::empty()
    } else {
        layers_weights((n - 1) as nat) + layer_weights((n - 1) as u32)
    }
}

/// The weights of a draft of `n_layer` layers: those of its layers, in
/// order, then its own three.
pub fn draft_weights(n_layer: u32) -> (v: Vec<DraftWeight>)
    ensures
        v@ == layers_weights(n_layer as nat) + seq![
            DraftWeight::Fuse,
            DraftWeight::HiddenNorm,
            DraftWeight::OutNorm,
        ],
{
    let mut v: Vec<DraftWeight> = Vec::new();
    let mut il: u32 = 0;
    while il < n_layer
        invariant
            il <= n_layer,
            v@ == layers_weights(il as nat),
        decreases n_layer - il,
    {
        let ghost before = v@;
        v.push(DraftWeight::AttnNorm(il));
        v.push(DraftWeight::Q(il));
        v.push(DraftWeight::K(il));
        v.push(DraftWeight::V(il));
        v.push(DraftWeight::QNorm(il));
        v.push(DraftWeight::KNorm(il));
        v.push(DraftWeight::Out(il));
        v.push(DraftWeight::FfnNorm(il));
        v.push(DraftWeight::Gate(il));
        v.push(DraftWeight::Up(il));
        v.push(DraftWeight::Down(il));
        assert(v@ =~= before + layer_weights(il));
        il = il + 1;
    }
    let ghost before = v@;
    v.push(DraftWeight::Fuse);
    v.push(DraftWeight::HiddenNorm);
    v.push(DraftWeight::OutNorm);
    assert(v@ =~= before + seq![
        DraftWeight::Fuse,
        DraftWeight::HiddenNorm,
        DraftWeight::OutNorm,
    ]);
    v
}

/// Rows of a draft's buffer, and elements of one row. Buffers of the target
/// have no rows here.
pub open spec fn draft_extent(d: &DraftShape, b: DraftBuf) -> (int, int) {
    let ring = RING_CAP as int;
    let block = d.block_size as int;
    let heads = d.n_head * d.head_dim;
    let pairs = d.n_kv * d.head_dim;
    match b {
        DraftBuf::FeatIn => (ring, d.layer_ids@.len() * d.n_embd),
        DraftBuf::Feat => (ring, d.n_embd as int),
        DraftBuf::Block => (block, d.n_embd as int),
        DraftBuf::BlockNormed => (block, d.n_embd as int),
        DraftBuf::Keys => (ring + block, pairs),
        DraftBuf::Values => (ring + block, pairs),
        DraftBuf::Queries => (block, heads),
        DraftBuf::Mixed => (block, heads),
        DraftBuf::Delta => (block, d.n_embd as int),
        DraftBuf::GateAct => (block, d.ff as int),
        DraftBuf::UpAct => (block, d.ff as int),
        DraftBuf::Mid => (block, d.ff as int),
        _ => (0, 0),
    }
}

/// Elements of a draft's buffer.
pub open spec fn draft_elems(d: &DraftShape, b: DraftBuf) -> int {
    draft_extent(d, b).0 * draft_extent(d, b).1
}

/// Bytes of a draft's buffer, four per element; `None` when they have no
/// size in memory.
pub fn draft_bytes(d: &DraftShape, b: DraftBuf) -> (r: Option<usize>)
    requires
        d.layer_ids@.len() <= u32::MAX,
    ensures
        match r {
            Some(n) => n == 4 * draft_elems(d, b),
            None => 4 * draft_elems(d, b) > usize::MAX,
        },
{
    proof {
        assert(0 <= d.n_head * d.head_dim <= 0xffff_ffff * 0xffff_ffff) by (nonlinear_arith)
            requires
                d.n_head <= 0xffff_ffff,
                d.head_dim <= 0xffff_ffff,
        ;
        assert(0 <= d.n_kv * d.head_dim <= 0xffff_ffff * 0xffff_ffff) by (nonlinear_arith)
            requires
                d.n_kv <= 0xffff_ffff,
                d.head_dim <= 0xffff_ffff,
        ;
        assert(0 <= d.layer_ids@.len() * d.n_embd <= 0xffff_ffff * 0xffff_ffff) by (nonlinear_arith)
            requires
                d.layer_ids@.len() <= 0xffff_ffff,
                d.n_embd <= 0xffff_ffff,
        ;
    }
    let ring: u128 = RING_CAP as u128;
    let block: u128 = d.block_size as u128;
    let heads: u128 = d.n_head as u128 * d.head_dim as u128;
    let pairs: u128 = d.n_kv as u128 * d.head_dim as u128;
    let (rows, width): (u128, u128) = match b {
        DraftBuf::FeatIn => (ring, d.layer_ids.len() as u128 * d.n_embd as u128),
        DraftBuf::Feat => (ring, d.n_embd as u128),
        DraftBuf::Block => (block, d.n_embd as u128),
        DraftBuf::BlockNormed => (block, d.n_embd as u128),
        DraftBuf::Keys => (ring + block, pairs),
        DraftBuf::Values => (ring + block, pairs),
        DraftBuf::Queries => (block, heads),
        DraftBuf::Mixed => (block, heads),
        DraftBuf::Delta => (block, d.n_embd as u128),
        DraftBuf::GateAct => (block, d.ff as u128),
        DraftBuf::UpAct => (block, d.ff as u128),
        DraftBuf::Mid => (block, d.ff as u128),
        _ => (0, 0),
    };
    proof {
        assert(0 <= rows * width <= 0x2_0000_0000 * (0xffff_ffff * 0xffff_ffff)) by (nonlinear_arith)
            requires
                0 <= rows <= 0x2_0000_0000,
                0 <= width <= 0xffff_ffff * 0xffff_ffff,
        ;
    }
    let n: u128 = rows * width;
    if 4 * n <= usize::MAX as u128 {
        Some((4 * n) as usize)
    } else {
        None
    }
}

/// The buffers that a draft brings.
pub fn draft_buffers() -> (v: Vec<DraftBuf>)
    ensures
        v@ == seq![
            DraftBuf::FeatIn,
            DraftBuf::Feat,
            DraftBuf::Block,
            DraftBuf::BlockNormed,
            DraftBuf::Keys,
            DraftBuf::Values,
            DraftBuf::Queries,
            DraftBuf::Mixed,
            DraftBuf::Delta,
            DraftBuf::GateAct,
            DraftBuf::UpAct,
            DraftBuf::Mid,
        ],
{
    vec![
        DraftBuf::FeatIn,
        DraftBuf::Feat,
        DraftBuf::Block,
        DraftBuf::BlockNormed,
        DraftBuf::Keys,
        DraftBuf::Values,
        DraftBuf::Queries,
        DraftBuf::Mixed,
        DraftBuf::Delta,
        DraftBuf::GateAct,
        DraftBuf::UpAct,
        DraftBuf::Mid,
    ]
}

/// Captured rows of the context, fused, and the block's tokens, embedded.
pub open spec fn gather_ops(d: DraftDims, first: u32, ctx: u32, rows: u32) -> Seq<DraftOp> {
    seq![
        DraftOp::Gather { first, rows: ctx },
        DraftOp::Embed { dst: DraftBuf::Block, rows },
        DraftOp::Mul { dst: DraftBuf::Feat, at: 0, w: DraftWeight::Fuse, src: DraftBuf::FeatIn, inner: Width { n: d.captured, each: d.n_embd }, outer: Width { n: 1, each: d.n_embd }, rows: ctx },
        DraftOp::NormIn { buf: DraftBuf::Feat, w: DraftWeight::HiddenNorm, rows: ctx },
    ]
}

fn push_gather(v: &mut Vec<DraftOp>, d: DraftDims, first: u32, ctx: u32, rows: u32)
    ensures
        final(v)@ == old(v)@ + gather_ops(d, first, ctx, rows),
{
    v.push(DraftOp::Gather { first, rows: ctx });
    v.push(DraftOp::Embed { dst: DraftBuf::Block, rows });
    v.push(DraftOp::Mul { dst: DraftBuf::Feat, at: 0, w: DraftWeight::Fuse, src: DraftBuf::FeatIn, inner: Width { n: d.captured, each: d.n_embd }, outer: Width { n: 1, each: d.n_embd }, rows: ctx });
    v.push(DraftOp::NormIn { buf: DraftBuf::Feat, w: DraftWeight::HiddenNorm, rows: ctx });
    assert(v@ =~= old(v)@ + gather_ops(d, first, ctx, rows));
}

/// Keys and values of a layer: context rows from the features, block rows
/// behind them.
pub open spec fn kv_ops(d: DraftDims, il: u32, ctx: u32, rows: u32) -> Seq<DraftOp> {
    seq![
        DraftOp::Norm { dst: DraftBuf::BlockNormed, src: DraftBuf::Block, w: DraftWeight::AttnNorm(il), rows: rows },
        DraftOp::Mul { dst: DraftBuf::Keys, at: 0, w: DraftWeight::K(il), src: DraftBuf::Feat, inner: Width { n: 1, each: d.n_embd }, outer: Width { n: d.n_kv, each: d.head_dim }, rows: ctx },
        DraftOp::Mul { dst: DraftBuf::Keys, at: ctx, w: DraftWeight::K(il), src: DraftBuf::BlockNormed, inner: Width { n: 1, each: d.n_embd }, outer: Width { n: d.n_kv, each: d.head_dim }, rows: rows },
        DraftOp::Mul { dst: DraftBuf::Values, at: 0, w: DraftWeight::V(il), src: DraftBuf::Feat, inner: Width { n: 1, each: d.n_embd }, outer: Width { n: d.n_kv, each: d.head_dim }, rows: ctx },
        DraftOp::Mul { dst: DraftBuf::Values, at: ctx, w: DraftWeight::V(il), src: DraftBuf::BlockNormed, inner: Width { n: 1, each: d.n_embd }, outer: Width { n: d.n_kv, each: d.head_dim }, rows: rows },
    ]
}

fn push_kv(v: &mut Vec<DraftOp>, d: DraftDims, il: u32, ctx: u32, rows: u32)
    ensures
        final(v)@ == old(v)@ + kv_ops(d, il, ctx, rows),
{
    v.push(DraftOp::Norm { dst: DraftBuf::BlockNormed, src: DraftBuf::Block, w: DraftWeight::AttnNorm(il), rows: rows });
    v.push(DraftOp::Mul { dst: DraftBuf::Keys, at: 0, w: DraftWeight::K(il), src: DraftBuf::Feat, inner: Width { n: 1, each: d.n_embd }, outer: Width { n: d.n_kv, each: d.head_dim }, rows: ctx });
    v.push(DraftOp::Mul { dst: DraftBuf::Keys, at: ctx, w: DraftWeight::K(il), src: DraftBuf::BlockNormed, inner: Width { n: 1, each: d.n_embd }, outer: Width { n: d.n_kv, each: d.head_dim }, rows: rows });
    v.push(DraftOp::Mul { dst: DraftBuf::Values, at: 0, w: DraftWeight::V(il), src: DraftBuf::Feat, inner: Width { n: 1, each: d.n_embd }, outer: Width { n: d.n_kv, each: d.head_dim }, rows: ctx });
    v.push(DraftOp::Mul { dst: DraftBuf::Values, at: ctx, w: DraftWeight::V(il), src: DraftBuf::BlockNormed, inner: Width { n: 1, each: d.n_embd }, outer: Width { n: d.n_kv, each: d.head_dim }, rows: rows });
    assert(v@ =~= old(v)@ + kv_ops(d, il, ctx, rows));
}

/// Attention of a layer: the block's queries over all keys, at positions that
/// start with the context.
pub open spec fn mix_ops(d: DraftDims, il: u32, ctx: u32, rows: u32) -> Seq<DraftOp> {
    seq![
        DraftOp::HeadNorm { buf: DraftBuf::Keys, w: DraftWeight::KNorm(il), heads: d.n_kv, rows: (ctx + rows) as u32 },
        DraftOp::Mul { dst: DraftBuf::Queries, at: 0, w: DraftWeight::Q(il), src: DraftBuf::BlockNormed, inner: Width { n: 1, each: d.n_embd }, outer: Width { n: d.n_head, each: d.head_dim }, rows: rows },
        DraftOp::HeadNorm { buf: DraftBuf::Queries, w: DraftWeight::QNorm(il), heads: d.n_head, rows: rows },
        DraftOp::Rope { buf: DraftBuf::Keys, heads: d.n_kv, from: 0, rows: (ctx + rows) as u32 },
        DraftOp::Rope { buf: DraftBuf::Queries, heads: d.n_head, from: ctx, rows: rows },
        DraftOp::Attend { rows, keys: (ctx + rows) as u32 },
        DraftOp::Mul { dst: DraftBuf::Delta, at: 0, w: DraftWeight::Out(il), src: DraftBuf::Mixed, inner: Width { n: d.n_head, each: d.head_dim }, outer: Width { n: 1, each: d.n_embd }, rows: rows },
        DraftOp::AddIn { dst: DraftBuf::Block, src: DraftBuf::Delta, rows },
    ]
}

fn push_mix(v: &mut Vec<DraftOp>, d: DraftDims, il: u32, ctx: u32, rows: u32)
    requires
        ctx + rows <= u32::MAX,
    ensures
        final(v)@ == old(v)@ + mix_ops(d, il, ctx, rows),
{
    v.push(DraftOp::HeadNorm { buf: DraftBuf::Keys, w: DraftWeight::KNorm(il), heads: d.n_kv, rows: ctx + rows });
    v.push(DraftOp::Mul { dst: DraftBuf::Queries, at: 0, w: DraftWeight::Q(il), src: DraftBuf::BlockNormed, inner: Width { n: 1, each: d.n_embd }, outer: Width { n: d.n_head, each: d.head_dim }, rows: rows });
    v.push(DraftOp::HeadNorm { buf: DraftBuf::Queries, w: DraftWeight::QNorm(il), heads: d.n_head, rows: rows });
    v.push(DraftOp::Rope { buf: DraftBuf::Keys, heads: d.n_kv, from: 0, rows: ctx + rows });
    v.push(DraftOp::Rope { buf: DraftBuf::Queries, heads: d.n_head, from: ctx, rows: rows });
    v.push(DraftOp::Attend { rows, keys: ctx + rows });
    v.push(DraftOp::Mul { dst: DraftBuf::Delta, at: 0, w: DraftWeight::Out(il), src: DraftBuf::Mixed, inner: Width { n: d.n_head, each: d.head_dim }, outer: Width { n: 1, each: d.n_embd }, rows: rows });
    v.push(DraftOp::AddIn { dst: DraftBuf::Block, src: DraftBuf::Delta, rows });
    assert(v@ =~= old(v)@ + mix_ops(d, il, ctx, rows));
}

/// The feed-forward part of a layer.
pub open spec fn ffn_ops(d: DraftDims, il: u32, rows: u32) -> Seq<DraftOp> {
    seq![
        DraftOp::Norm { dst: DraftBuf::BlockNormed, src: DraftBuf::Block, w: DraftWeight::FfnNorm(il), rows: rows },
        DraftOp::Mul { dst: DraftBuf::GateAct, at: 0, w: DraftWeight::Gate(il), src: DraftBuf::BlockNormed, inner: Width { n: 1, each: d.n_embd }, outer: Width { n: 1, each: d.ff }, rows: rows },
        DraftOp::Mul { dst: DraftBuf::UpAct, at: 0, w: DraftWeight::Up(il), src: DraftBuf::BlockNormed, inner: Width { n: 1, each: d.n_embd }, outer: Width { n: 1, each: d.ff }, rows: rows },
        DraftOp::Swiglu { rows },
        DraftOp::Mul { dst: DraftBuf::Delta, at: 0, w: DraftWeight::Down(il), src: DraftBuf::Mid, inner: Width { n: 1, each: d.ff }, outer: Width { n: 1, each: d.n_embd }, rows: rows },
        DraftOp::AddIn { dst: DraftBuf::Block, src: DraftBuf::Delta, rows },
    ]
}

fn push_ffn(v: &mut Vec<DraftOp>, d: DraftDims, il: u32, rows: u32)
    ensures
        final(v)@ == old(v)@ + ffn_ops(d, il, rows),
{
    v.push(DraftOp::Norm { dst: DraftBuf::BlockNormed, src: DraftBuf::Block, w: DraftWeight::FfnNorm(il), rows: rows });
    v.push(DraftOp::Mul { dst: DraftBuf::GateAct, at: 0, w: DraftWeight::Gate(il), src: DraftBuf::BlockNormed, inner: Width { n: 1, each: d.n_embd }, outer: Width { n: 1, each: d.ff }, rows: rows });
    v.push(DraftOp::Mul { dst: DraftBuf::UpAct, at: 0, w: DraftWeight::Up(il), src: DraftBuf::BlockNormed, inner: Width { n: 1, each: d.n_embd }, outer: Width { n: 1, each: d.ff }, rows: rows });
    v.push(DraftOp::Swiglu { rows });
    v.push(DraftOp::Mul { dst: DraftBuf::Delta, at: 0, w: DraftWeight::Down(il), src: DraftBuf::Mid, inner: Width { n: 1, each: d.ff }, outer: Width { n: 1, each: d.n_embd }, rows: rows });
    v.push(DraftOp::AddIn { dst: DraftBuf::Block, src: DraftBuf::Delta, rows });
    assert(v@ =~= old(v)@ + ffn_ops(d, il, rows));
}

/// A layer of a draft.
pub open spec fn layer_ops(d: DraftDims, il: u32, ctx: u32, rows: u32) -> Seq<DraftOp> {
    kv_ops(d, il, ctx, rows) + mix_ops(d, il, ctx, rows) + ffn_ops(d, il, rows)
}

/// The first `n` layers of a draft.
pub open spec fn layers_ops(d: DraftDims, ctx: u32, rows: u32, n: int) -> Seq<DraftOp>
    decreases n,
{
    if n <= 0 {
        Seq::empty()
    } else {
        layers_ops(d, ctx, rows, n - 1) + layer_ops(d, (n - 1) as u32, ctx, rows)
    }
}

/// What the head does behind its product.
#[derive(Clone, Copy, Debug, PartialEq, Eq, Structural)]
pub struct HeadFacts {
    /// Its weights read quantized blocks.
    pub kq: bool,
    pub softcap: bool,
    pub scale: bool,
    /// There are rows of padding behind the vocabulary.
    pub padded: bool,
}

/// What the head does: a positive cap caps, a factor other than one scales,
/// and padding is buried.
pub fn head_facts(kq: bool, softcap: u32, scale: u32, n_vocab_out: u32, n_vocab: u32) -> (h: HeadFacts)
    ensures
        h == (HeadFacts {
            kq,
            softcap: floats::above(softcap, F32_ZERO),
            scale: scale != F32_ONE,
            padded: n_vocab_out < n_vocab,
        }),
{
    HeadFacts {
        kq,
        softcap: floats::greater(softcap, F32_ZERO),
        scale: scale != F32_ONE,
        padded: n_vocab_out < n_vocab,
    }
}

/// `op`, where it is on.
pub open spec fn only(on: bool, op: DraftOp) -> Seq<DraftOp> {
    if on {
        seq![op]
    } else {
        Seq::empty()
    }
}

fn push_only(v: &mut Vec<DraftOp>, on: bool, op: DraftOp)
    ensures
        final(v)@ == old(v)@ + only(on, op),
{
    if on {
        v.push(op);
    }
    assert(v@ =~= old(v)@ + only(on, op));
}

/// Logits of normed rows.
pub open spec fn head_ops(h: HeadFacts, rows: u32) -> Seq<DraftOp> {
    only(h.kq, DraftOp::HeadBlocks { rows }) + seq![DraftOp::Head { kq: h.kq, rows }] + only(
        h.softcap,
        DraftOp::Softcap { rows },
    ) + only(h.scale, DraftOp::ScaleLogits { rows }) + only(h.padded, DraftOp::MaskTail { rows })
}

fn push_head(v: &mut Vec<DraftOp>, h: HeadFacts, rows: u32)
    ensures
        final(v)@ == old(v)@ + head_ops(h, rows),
{
    push_only(v, h.kq, DraftOp::HeadBlocks { rows });
    v.push(DraftOp::Head { kq: h.kq, rows });
    push_only(v, h.softcap, DraftOp::Softcap { rows });
    push_only(v, h.scale, DraftOp::ScaleLogits { rows });
    push_only(v, h.padded, DraftOp::MaskTail { rows });
    assert(v@ =~= old(v)@ + head_ops(h, rows));
}

/// The launches of the head over normed rows.
pub fn head_logits(h: HeadFacts, rows: u32) -> (v: Vec<DraftOp>)
    ensures
        v@ == head_ops(h, rows),
{
    let mut v: Vec<DraftOp> = Vec::new();
    push_head(&mut v, h, rows);
    assert(v@ =~= head_ops(h, rows));
    v
}

/// A draft of a block of `rows` tokens behind `committed` positions.
pub open spec fn draft_ops(d: DraftDims, h: HeadFacts, first: u32, ctx: u32, rows: u32) -> Seq<DraftOp> {
    gather_ops(d, first, ctx, rows) + layers_ops(d, ctx, rows, d.n_layer as int) + seq![
        DraftOp::Norm {
            dst: DraftBuf::Normed,
            src: DraftBuf::Block,
            w: DraftWeight::OutNorm,
            rows,
        },
    ] + head_ops(h, rows)
}

/// The launches of a draft, over the window of the ring that ends with
/// `committed`.
pub fn plan_draft(d: DraftDims, h: HeadFacts, committed: u32, rows: u32) -> (v: Vec<DraftOp>)
    requires
        rows + RING_CAP <= u32::MAX,
    ensures
        ({
            let len = if committed <= RING_CAP {
                committed
            } else {
                RING_CAP
            };
            v@ == draft_ops(d, h, dflash::slot_of(committed - len) as u32, len, rows)
        }),
{
    let w = dflash::window(committed);
    let ctx: u32 = w.len;
    let mut v: Vec<DraftOp> = Vec::new();
    push_gather(&mut v, d, w.first, ctx, rows);
    let ghost head = gather_ops(d, w.first, ctx, rows);
    assert(v@ =~= head + layers_ops(d, ctx, rows, 0));
    let mut il: u32 = 0;
    while il < d.n_layer
        invariant
            il <= d.n_layer,
            ctx <= RING_CAP,
            rows + RING_CAP <= u32::MAX,
            v@ == head + layers_ops(d, ctx, rows, il as int),
        decreases d.n_layer - il,
    {
        let ghost was = layers_ops(d, ctx, rows, il as int);
        push_kv(&mut v, d, il, ctx, rows);
        push_mix(&mut v, d, il, ctx, rows);
        push_ffn(&mut v, d, il, rows);
        assert(v@ =~= head + (was + layer_ops(d, il, ctx, rows)));
        il = il + 1;
    }
    v.push(
        DraftOp::Norm {
            dst: DraftBuf::Normed,
            src: DraftBuf::Block,
            w: DraftWeight::OutNorm,
            rows,
        },
    );
    push_head(&mut v, h, rows);
    assert(v@ =~= draft_ops(d, h, w.first, ctx, rows));
    v
}

proof fn lemma_gather(d: DraftDims, first: u32, ctx: u32, rows: u32, f: Filled)
    requires
        forall|b: DraftBuf| #[trigger] f(b) >= 0,
    ensures
        reads_filled(gather_ops(d, first, ctx, rows), 0, f),
        filled_after(gather_ops(d, first, ctx, rows), 0, f)(DraftBuf::Feat) >= ctx,
        filled_after(gather_ops(d, first, ctx, rows), 0, f)(DraftBuf::Block) >= rows,
{
    reveal_with_fuel(reads_filled, 5);
    reveal_with_fuel(filled_after, 5);
}

proof fn lemma_kv(d: DraftDims, il: u32, ctx: u32, rows: u32, f: Filled)
    requires
        forall|b: DraftBuf| #[trigger] f(b) >= 0,
        f(DraftBuf::Feat) >= ctx,
        f(DraftBuf::Block) >= rows,
    ensures
        reads_filled(kv_ops(d, il, ctx, rows), 0, f),
        filled_after(kv_ops(d, il, ctx, rows), 0, f)(DraftBuf::Keys) >= ctx + rows,
        filled_after(kv_ops(d, il, ctx, rows), 0, f)(DraftBuf::Values) >= ctx + rows,
        filled_after(kv_ops(d, il, ctx, rows), 0, f)(DraftBuf::BlockNormed) >= rows,
{
    reveal_with_fuel(reads_filled, 6);
    reveal_with_fuel(filled_after, 6);
}

proof fn lemma_mix(d: DraftDims, il: u32, ctx: u32, rows: u32, f: Filled)
    requires
        ctx + rows <= u32::MAX,
        forall|b: DraftBuf| #[trigger] f(b) >= 0,
        f(DraftBuf::Block) >= rows,
        f(DraftBuf::BlockNormed) >= rows,
        f(DraftBuf::Keys) >= ctx + rows,
        f(DraftBuf::Values) >= ctx + rows,
    ensures
        reads_filled(mix_ops(d, il, ctx, rows), 0, f),
{
    reveal_with_fuel(reads_filled, 9);
    reveal_with_fuel(filled_after, 9);
}

proof fn lemma_ffn(d: DraftDims, il: u32, rows: u32, f: Filled)
    requires
        forall|b: DraftBuf| #[trigger] f(b) >= 0,
        f(DraftBuf::Block) >= rows,
    ensures
        reads_filled(ffn_ops(d, il, rows), 0, f),
{
    reveal_with_fuel(reads_filled, 7);
    reveal_with_fuel(filled_after, 7);
}

proof fn lemma_grows_all(ops: Seq<DraftOp>, f: Filled)
    requires
        forall|b: DraftBuf| #[trigger] f(b) >= 0,
    ensures
        forall|b: DraftBuf| #[trigger] filled_after(ops, 0, f)(b) >= f(b),
        forall|b: DraftBuf| #[trigger] filled_after(ops, 0, f)(b) >= 0,
{
    assert forall|b: DraftBuf| #[trigger] filled_after(ops, 0, f)(b) >= f(b) by {
        lemma_grows(ops, 0, f, b);
    }
    assert forall|b: DraftBuf| #[trigger] filled_after(ops, 0, f)(b) >= 0 by {
        assert(f(b) >= 0);
    }
}

proof fn lemma_layer(d: DraftDims, il: u32, ctx: u32, rows: u32, f: Filled)
    requires
        ctx + rows <= u32::MAX,
        forall|b: DraftBuf| #[trigger] f(b) >= 0,
        f(DraftBuf::Feat) >= ctx,
        f(DraftBuf::Block) >= rows,
    ensures
        reads_filled(layer_ops(d, il, ctx, rows), 0, f),
{
    let a = kv_ops(d, il, ctx, rows);
    let b = mix_ops(d, il, ctx, rows);
    let c = ffn_ops(d, il, rows);
    lemma_kv(d, il, ctx, rows, f);
    lemma_grows_all(a, f);
    let g = filled_after(a, 0, f);
    lemma_mix(d, il, ctx, rows, g);
    lemma_grows_all(b, g);
    lemma_join(a, b, 0, f);
    let k = filled_after(b, 0, g);
    assert(k(DraftBuf::Block) >= g(DraftBuf::Block) >= f(DraftBuf::Block));
    lemma_ffn(d, il, rows, k);
    lemma_join(a + b, c, 0, f);
}

proof fn lemma_layers(d: DraftDims, ctx: u32, rows: u32, n: int, f: Filled)
    requires
        ctx + rows <= u32::MAX,
        forall|b: DraftBuf| #[trigger] f(b) >= 0,
        f(DraftBuf::Feat) >= ctx,
        f(DraftBuf::Block) >= rows,
    ensures
        reads_filled(layers_ops(d, ctx, rows, n), 0, f),
    decreases n,
{
    if n > 0 {
        let a = layers_ops(d, ctx, rows, n - 1);
        lemma_layers(d, ctx, rows, n - 1, f);
        lemma_grows_all(a, f);
        let g = filled_after(a, 0, f);
        assert(g(DraftBuf::Feat) >= f(DraftBuf::Feat) && g(DraftBuf::Block) >= f(DraftBuf::Block));
        lemma_layer(d, (n - 1) as u32, ctx, rows, g);
        lemma_join(a, layer_ops(d, (n - 1) as u32, ctx, rows), 0, f);
    }
}

proof fn lemma_head(h: HeadFacts, rows: u32, f: Filled)
    requires
        forall|b: DraftBuf| #[trigger] f(b) >= 0,
        f(DraftBuf::Normed) >= rows,
    ensures
        reads_filled(head_ops(h, rows), 0, f),
        filled_after(head_ops(h, rows), 0, f)(DraftBuf::Logits) >= rows,
{
    let a = only(h.kq, DraftOp::HeadBlocks { rows });
    let b = seq![DraftOp::Head { kq: h.kq, rows }];
    let c = only(h.softcap, DraftOp::Softcap { rows });
    let e = only(h.scale, DraftOp::ScaleLogits { rows });
    let g = only(h.padded, DraftOp::MaskTail { rows });
    reveal_with_fuel(reads_filled, 2);
    reveal_with_fuel(filled_after, 2);
    lemma_join(a, b, 0, f);
    lemma_join(a + b, c, 0, f);
    lemma_join(a + b + c, e, 0, f);
    lemma_join(a + b + c + e, g, 0, f);
}

/// Nothing written yet.
pub open spec fn nothing() -> Filled {
    |b: DraftBuf| 0int
}

/// A draft reads no row before it is written, whatever is left in its
/// buffers, and gives logits for every row of its block.
pub proof fn draft_is_sound(d: DraftDims, h: HeadFacts, first: u32, ctx: u32, rows: u32)
    requires
        ctx + rows <= u32::MAX,
    ensures
        reads_filled(draft_ops(d, h, first, ctx, rows), 0, nothing()),
        filled_after(draft_ops(d, h, first, ctx, rows), 0, nothing())(DraftBuf::Logits) >= rows,
{
    let f = nothing();
    let a = gather_ops(d, first, ctx, rows);
    let b = layers_ops(d, ctx, rows, d.n_layer as int);
    let c = seq![
        DraftOp::Norm {
            dst: DraftBuf::Normed,
            src: DraftBuf::Block,
            w: DraftWeight::OutNorm,
            rows,
        },
    ];
    lemma_gather(d, first, ctx, rows, f);
    lemma_grows_all(a, f);
    let g = filled_after(a, 0, f);
    lemma_layers(d, ctx, rows, d.n_layer as int, g);
    lemma_grows_all(b, g);
    lemma_join(a, b, 0, f);
    let k = filled_after(b, 0, g);
    assert(k(DraftBuf::Block) >= g(DraftBuf::Block));
    assert(reads_filled(c, 0, k) && filled_after(c, 0, k)(DraftBuf::Normed) >= rows) by {
        reveal_with_fuel(reads_filled, 2);
        reveal_with_fuel(filled_after, 2);
        assert(k(DraftBuf::Normed) >= 0);
    }
    lemma_grows_all(c, k);
    lemma_join(a + b, c, 0, f);
    lemma_head(h, rows, filled_after(c, 0, k));
    lemma_join(a + b + c, head_ops(h, rows), 0, f);
}

/// Hidden rows of a batch: the one left by the last batch, then all but the
/// last of this one; the last is left for the next.
pub open spec fn shift_ops(n: u32) -> Seq<DraftOp> {
    let first = DraftOp::CopyRows {
        dst: DraftBuf::Raw,
        to: 0,
        src: DraftBuf::Hidden,
        from: 0,
        rows: 1,
    };
    let last = DraftOp::CopyRows {
        dst: DraftBuf::Hidden,
        to: 0,
        src: DraftBuf::Stream,
        from: (n - 1) as u32,
        rows: 1,
    };
    if n > 1 {
        seq![
            first,
            DraftOp::CopyRows {
                dst: DraftBuf::Raw,
                to: 1,
                src: DraftBuf::Stream,
                from: 0,
                rows: (n - 1) as u32,
            },
            last,
        ]
    } else {
        seq![first, last]
    }
}

fn push_shift(v: &mut Vec<DraftOp>, n: u32)
    requires
        n >= 1,
    ensures
        final(v)@ == old(v)@ + shift_ops(n),
{
    v.push(DraftOp::CopyRows { dst: DraftBuf::Raw, to: 0, src: DraftBuf::Hidden, from: 0, rows: 1 });
    if n > 1 {
        v.push(
            DraftOp::CopyRows {
                dst: DraftBuf::Raw,
                to: 1,
                src: DraftBuf::Stream,
                from: 0,
                rows: n - 1,
            },
        );
    }
    v.push(
        DraftOp::CopyRows {
            dst: DraftBuf::Hidden,
            to: 0,
            src: DraftBuf::Stream,
            from: n - 1,
            rows: 1,
        },
    );
    assert(v@ =~= old(v)@ + shift_ops(n));
}

/// The norms of hidden rows and of embeddings.
pub open spec fn inputs_ops(n: u32) -> Seq<DraftOp> {
    seq![
        DraftOp::Norm {
            dst: DraftBuf::HiddenNormed,
            src: DraftBuf::Raw,
            w: DraftWeight::StreamNorm,
            rows: n,
        },
        DraftOp::Embed { dst: DraftBuf::Raw, rows: n },
        DraftOp::Norm {
            dst: DraftBuf::EmbNormed,
            src: DraftBuf::Raw,
            w: DraftWeight::TokenNorm,
            rows: n,
        },
    ]
}

/// The two copies that make pair `i`.
pub open spec fn pair_ops(i: int) -> Seq<DraftOp> {
    seq![
        DraftOp::CopyRows {
            dst: DraftBuf::Pairs,
            to: (2 * i) as u32,
            src: DraftBuf::EmbNormed,
            from: i as u32,
            rows: 1,
        },
        DraftOp::CopyRows {
            dst: DraftBuf::Pairs,
            to: (2 * i + 1) as u32,
            src: DraftBuf::HiddenNormed,
            from: i as u32,
            rows: 1,
        },
    ]
}

/// The copies that make the first `n` pairs.
pub open spec fn pairs_ops(n: int) -> Seq<DraftOp>
    decreases n,
{
    if n <= 0 {
        Seq::empty()
    } else {
        pairs_ops(n - 1) + pair_ops(n - 1)
    }
}

/// What runs before the extra layer over a batch.
pub open spec fn fill_ops(n: u32) -> Seq<DraftOp> {
    shift_ops(n) + inputs_ops(n) + pairs_ops(n as int) + seq![DraftOp::Join { rows: n }]
}

/// The launches before the extra layer, over a batch of `n` tokens.
pub fn mtp_prefill_fill(n: u32) -> (v: Vec<DraftOp>)
    requires
        1 <= n <= 0x7fff_ffff,
    ensures
        v@ == fill_ops(n),
{
    let mut v: Vec<DraftOp> = Vec::new();
    push_shift(&mut v, n);
    v.push(
        DraftOp::Norm {
            dst: DraftBuf::HiddenNormed,
            src: DraftBuf::Raw,
            w: DraftWeight::StreamNorm,
            rows: n,
        },
    );
    v.push(DraftOp::Embed { dst: DraftBuf::Raw, rows: n });
    v.push(
        DraftOp::Norm {
            dst: DraftBuf::EmbNormed,
            src: DraftBuf::Raw,
            w: DraftWeight::TokenNorm,
            rows: n,
        },
    );
    let ghost head = shift_ops(n) + inputs_ops(n);
    assert(v@ =~= head + pairs_ops(0));
    let mut i: u32 = 0;
    while i < n
        invariant
            i <= n <= 0x7fff_ffff,
            v@ == head + pairs_ops(i as int),
        decreases n - i,
    {
        v.push(
            DraftOp::CopyRows {
                dst: DraftBuf::Pairs,
                to: 2 * i,
                src: DraftBuf::EmbNormed,
                from: i,
                rows: 1,
            },
        );
        v.push(
            DraftOp::CopyRows {
                dst: DraftBuf::Pairs,
                to: 2 * i + 1,
                src: DraftBuf::HiddenNormed,
                from: i,
                rows: 1,
            },
        );
        assert(v@ =~= head + (pairs_ops(i as int) + pair_ops(i as int)));
        i = i + 1;
    }
    v.push(DraftOp::Join { rows: n });
    assert(v@ =~= fill_ops(n));
    v
}

/// What runs before the extra layer for one drafted token.
pub open spec fn body_ops() -> Seq<DraftOp> {
    seq![
        DraftOp::Embed { dst: DraftBuf::Raw, rows: 1 },
        DraftOp::Norm {
            dst: DraftBuf::EmbNormed,
            src: DraftBuf::Raw,
            w: DraftWeight::TokenNorm,
            rows: 1,
        },
        DraftOp::Norm {
            dst: DraftBuf::HiddenNormed,
            src: DraftBuf::Hidden,
            w: DraftWeight::StreamNorm,
            rows: 1,
        },
    ] + pair_ops(0) + seq![DraftOp::Join { rows: 1 }]
}

/// The launches before the extra layer, for one drafted token.
pub fn mtp_body() -> (v: Vec<DraftOp>)
    ensures
        v@ == body_ops(),
{
    let mut v: Vec<DraftOp> = Vec::new();
    v.push(DraftOp::Embed { dst: DraftBuf::Raw, rows: 1 });
    v.push(
        DraftOp::Norm {
            dst: DraftBuf::EmbNormed,
            src: DraftBuf::Raw,
            w: DraftWeight::TokenNorm,
            rows: 1,
        },
    );
    v.push(
        DraftOp::Norm {
            dst: DraftBuf::HiddenNormed,
            src: DraftBuf::Hidden,
            w: DraftWeight::StreamNorm,
            rows: 1,
        },
    );
    v.push(DraftOp::CopyRows { dst: DraftBuf::Pairs, to: 0, src: DraftBuf::EmbNormed, from: 0, rows: 1 });
    v.push(
        DraftOp::CopyRows {
            dst: DraftBuf::Pairs,
            to: 1,
            src: DraftBuf::HiddenNormed,
            from: 0,
            rows: 1,
        },
    );
    v.push(DraftOp::Join { rows: 1 });
    assert(v@ =~= body_ops());
    v
}

/// The launches behind the extra layer: the draft's logits.
pub fn mtp_draft(h: HeadFacts) -> (v: Vec<DraftOp>)
    ensures
        v@ == seq![
            DraftOp::Norm {
                dst: DraftBuf::Normed,
                src: DraftBuf::Stream,
                w: DraftWeight::HeadNorm,
                rows: 1,
            },
        ] + head_ops(h, 1),
{
    let mut v: Vec<DraftOp> = Vec::new();
    v.push(
        DraftOp::Norm {
            dst: DraftBuf::Normed,
            src: DraftBuf::Stream,
            w: DraftWeight::HeadNorm,
            rows: 1,
        },
    );
    push_head(&mut v, h, 1);
    v
}

/// What each row of each buffer holds.
pub type Rows = spec_fn(DraftBuf, int) -> int;

/// The rows once a copy has run; other launches are left out of account.
pub open spec fn copied(m: Rows, op: DraftOp) -> Rows {
    match op {
        DraftOp::CopyRows { dst, to, src, from, rows } => |b: DraftBuf, r: int|
            if b == dst && to <= r < to + rows {
                m(src, from + r - to)
            } else {
                m(b, r)
            },
        _ => m,
    }
}

/// The rows once the copies from `i` on have run.
pub open spec fn rows_after(ops: Seq<DraftOp>, i: int, m: Rows) -> Rows
    decreases ops.len() - i,
{
    if i >= ops.len() {
        m
    } else {
        rows_after(ops, i + 1, copied(m, ops[i]))
    }
}

/// A batch pairs every token with the hidden row before it: the first with
/// the row the last batch left, the others with rows of their own batch; and
/// the batch's last row is what the next one starts with.
pub proof fn hidden_rows_shift(n: u32, m: Rows, i: int)
    requires
        n >= 1,
    ensures
        rows_after(shift_ops(n), 0, m)(DraftBuf::Raw, 0) == m(DraftBuf::Hidden, 0),
        1 <= i < n ==> rows_after(shift_ops(n), 0, m)(DraftBuf::Raw, i) == m(
            DraftBuf::Stream,
            i - 1,
        ),
        rows_after(shift_ops(n), 0, m)(DraftBuf::Hidden, 0) == m(DraftBuf::Stream, n - 1),
{
    reveal_with_fuel(rows_after, 4);
}

proof fn lemma_rows_shift(a: Seq<DraftOp>, b: Seq<DraftOp>, i: int, m: Rows)
    requires
        0 <= i <= b.len(),
    ensures
        rows_after(a + b, a.len() + i, m) == rows_after(b, i, m),
    decreases b.len() - i,
{
    if i < b.len() {
        assert((a + b)[a.len() + i] == b[i]);
        lemma_rows_shift(a, b, i + 1, copied(m, b[i]));
    }
}

proof fn lemma_rows_join(a: Seq<DraftOp>, b: Seq<DraftOp>, i: int, m: Rows)
    requires
        0 <= i <= a.len(),
    ensures
        rows_after(a + b, i, m) == rows_after(b, 0, rows_after(a, i, m)),
    decreases a.len() - i,
{
    if i < a.len() {
        assert((a + b)[i] == a[i]);
        lemma_rows_join(a, b, i + 1, copied(m, a[i]));
    } else {
        lemma_rows_shift(a, b, 0, m);
    }
}

proof fn lemma_pairs(n: int, m: Rows)
    requires
        0 <= n <= 0x7fff_ffff,
    ensures
        forall|r: int|
            #[trigger] rows_after(pairs_ops(n), 0, m)(DraftBuf::Pairs, r) == if 0 <= r < 2 * n {
                if r % 2 == 0 {
                    m(DraftBuf::EmbNormed, r / 2)
                } else {
                    m(DraftBuf::HiddenNormed, r / 2)
                }
            } else {
                m(DraftBuf::Pairs, r)
            },
        forall|b: DraftBuf, r: int|
            b != DraftBuf::Pairs ==> #[trigger] rows_after(pairs_ops(n), 0, m)(b, r) == m(b, r),
    decreases n,
{
    if n > 0 {
        let a = pairs_ops(n - 1);
        let b = pair_ops(n - 1);
        lemma_pairs(n - 1, m);
        lemma_rows_join(a, b, 0, m);
        reveal_with_fuel(rows_after, 3);
    }
}

/// In the pairs, row `2 * i` is the embedding of token `i`, and the row
/// behind it the hidden row it goes with.
pub proof fn pairs_interleave(n: u32, m: Rows, i: int)
    requires
        n <= 0x7fff_ffff,
        0 <= i < n,
    ensures
        rows_after(pairs_ops(n as int), 0, m)(DraftBuf::Pairs, 2 * i) == m(DraftBuf::EmbNormed, i),
        rows_after(pairs_ops(n as int), 0, m)(DraftBuf::Pairs, 2 * i + 1) == m(
            DraftBuf::HiddenNormed,
            i,
        ),
{
    lemma_pairs(n as int, m);
}

proof fn lemma_pairs_filled(n: int, f: Filled)
    requires
        0 <= n <= 0x7fff_ffff,
        forall|b: DraftBuf| #[trigger] f(b) >= 0,
        f(DraftBuf::EmbNormed) >= n,
        f(DraftBuf::HiddenNormed) >= n,
    ensures
        reads_filled(pairs_ops(n), 0, f),
        filled_after(pairs_ops(n), 0, f)(DraftBuf::Pairs) >= 2 * n,
    decreases n,
{
    if n > 0 {
        let a = pairs_ops(n - 1);
        let b = pair_ops(n - 1);
        lemma_pairs_filled(n - 1, f);
        lemma_grows_all(a, f);
        let g = filled_after(a, 0, f);
        assert(g(DraftBuf::EmbNormed) >= f(DraftBuf::EmbNormed));
        assert(g(DraftBuf::HiddenNormed) >= f(DraftBuf::HiddenNormed));
        assert(reads_filled(b, 0, g) && filled_after(b, 0, g)(DraftBuf::Pairs) >= 2 * n) by {
            reveal_with_fuel(reads_filled, 3);
            reveal_with_fuel(filled_after, 3);
        }
        lemma_join(a, b, 0, f);
    }
}

/// What lies behind the last layer of a batch of `n` tokens: its stream, and
/// the hidden row left before it.
pub open spec fn batch_left(n: int) -> Filled {
    |b: DraftBuf|
        if b == DraftBuf::Stream {
            n
        } else if b == DraftBuf::Hidden {
            1
        } else {
            0
        }
}

/// Before the extra layer nothing is read that has not been written, over a
/// batch or for one token; and the batch's hidden row stays for the next.
pub proof fn fill_is_sound(n: u32)
    requires
        1 <= n <= 0x7fff_ffff,
    ensures
        reads_filled(fill_ops(n), 0, batch_left(n as int)),
        filled_after(fill_ops(n), 0, batch_left(n as int))(DraftBuf::Stream) >= n,
        filled_after(fill_ops(n), 0, batch_left(n as int))(DraftBuf::Hidden) >= 1,
        reads_filled(body_ops(), 0, batch_left(n as int)),
{
    let f = batch_left(n as int);
    let a = shift_ops(n);
    let b = inputs_ops(n);
    let c = pairs_ops(n as int);
    let e = seq![DraftOp::Join { rows: n }];
    assert(reads_filled(a, 0, f) && filled_after(a, 0, f)(DraftBuf::Raw) >= n) by {
        reveal_with_fuel(reads_filled, 4);
        reveal_with_fuel(filled_after, 4);
    }
    lemma_grows_all(a, f);
    let g = filled_after(a, 0, f);
    assert(reads_filled(b, 0, g) && filled_after(b, 0, g)(DraftBuf::EmbNormed) >= n && filled_after(
        b,
        0,
        g,
    )(DraftBuf::HiddenNormed) >= n) by {
        reveal_with_fuel(reads_filled, 4);
        reveal_with_fuel(filled_after, 4);
        assert(g(DraftBuf::EmbNormed) >= 0 && g(DraftBuf::HiddenNormed) >= 0);
    }
    lemma_grows_all(b, g);
    lemma_join(a, b, 0, f);
    let k = filled_after(b, 0, g);
    lemma_pairs_filled(n as int, k);
    lemma_join(a + b, c, 0, f);
    let l = filled_after(c, 0, k);
    assert(reads_filled(e, 0, l)) by {
        reveal_with_fuel(reads_filled, 2);
    }
    lemma_join(a + b + c, e, 0, f);
    lemma_grows_all(fill_ops(n), f);
    assert(filled_after(fill_ops(n), 0, f)(DraftBuf::Stream) >= f(DraftBuf::Stream));
    assert(filled_after(fill_ops(n), 0, f)(DraftBuf::Hidden) >= f(DraftBuf::Hidden));
    assert(reads_filled(body_ops(), 0, f)) by {
        reveal_with_fuel(reads_filled, 7);
        reveal_with_fuel(filled_after, 7);
    }
}

} // verus!
