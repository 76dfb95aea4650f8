//! The kernels of a hybrid layer, as a list of launches in order: a mixer,
//! by the delta rule or by gated attention, and a feed-forward part; each on
//! one card, or half on each of two.

use vstd::prelude::*;

use crate::dflash::Capture;
use crate::graph;
use crate::graph::{Buf, Op, Part, Place, Weight, Width};
use crate::hybrid::{GdnDims, HybridFfn, Mixer};
use crate::shape::Shape;

verus! {

/// Which of a card's mixer weights read quantized blocks: those of the
/// input, in order, and the output's.
#[derive(Clone, Copy, Debug, PartialEq, Eq, Structural)]
pub struct Mats {
    pub first: bool,
    pub second: bool,
    pub third: bool,
    pub out: bool,
}

/// Blocks are made when the first weight reads them, so the others may only
/// read them when it does.
pub open spec fn alike(m: Mats) -> bool {
    &&& m.second ==> m.first
    &&& m.third ==> m.first
}

pub open spec fn half(far: bool, p: Part) -> Buf {
    Buf::Half(far, p)
}

/// Keep the stream for a draft, and norm it.
pub open spec fn start_ops(s: &Shape, c: Capture) -> Seq<Op> {
    let norm = Op::Norm {
        dst: half(false, Part::In),
        src: Buf::Cur,
        w: Weight::AttnNorm,
        width: graph::flat(s.n_embd),
    };
    match c {
        Capture::No => seq![norm],
        Capture::Ring(i) => seq![Op::Capture { column: i, staged: false }, norm],
        Capture::Staged(i) => seq![Op::Capture { column: i, staged: true }, norm],
    }
}

fn unit(each: u32) -> (w: Width)
    ensures
        w == graph::flat(each),
{
    Width { n: 1, each }
}

fn push_start(v: &mut Vec<Op>, s: &Shape, c: Capture)
    ensures
        final(v)@ == old(v)@ + start_ops(s, c),
{
    match c {
        Capture::No => {},
        Capture::Ring(i) => {
            v.push(Op::Capture { column: i, staged: false });
        },
        Capture::Staged(i) => {
            v.push(Op::Capture { column: i, staged: true });
        },
    }
    v.push(
        Op::Norm {
            dst: Buf::Half(false, Part::In),
            src: Buf::Cur,
            w: Weight::AttnNorm,
            width: unit(s.n_embd),
        },
    );
    assert(v@ =~= old(v)@ + start_ops(s, c));
}

/// Quantize a card's input.
pub open spec fn quant_in(s: &Shape, far: bool) -> Op {
    Op::Quantize {
        dst: half(far, Part::Blocks),
        src: half(far, Part::In),
        width: graph::flat(s.n_embd),
    }
}

fn make_quant_in(s: &Shape, far: bool) -> (op: Op)
    ensures
        op == quant_in(s, far),
{
    Op::Quantize {
        dst: Buf::Half(far, Part::Blocks),
        src: Buf::Half(far, Part::In),
        width: unit(s.n_embd),
    }
}

/// A product of a card's input.
pub open spec fn mat_in(s: &Shape, far: bool, dst: Part, w: Weight, kq: bool, outer: Width) -> Op {
    Op::Mat {
        dst: half(far, dst),
        w,
        src: half(far, Part::In),
        blocks: half(far, Part::Blocks),
        kq,
        inner: graph::flat(s.n_embd),
        outer,
    }
}

fn make_mat_in(s: &Shape, far: bool, dst: Part, w: Weight, kq: bool, outer: Width) -> (op: Op)
    ensures
        op == mat_in(s, far, dst, w, kq, outer),
{
    Op::Mat {
        dst: Buf::Half(far, dst),
        w,
        src: Buf::Half(far, Part::In),
        blocks: Buf::Half(far, Part::Blocks),
        kq,
        inner: unit(s.n_embd),
        outer,
    }
}

/// The output projection of a card's mixer, from `src`.
pub open spec fn out_ops(s: &Shape, far: bool, src: Part, w: Weight, kq: bool, inner: Width) -> Seq<Op> {
    let mat = Op::Mat {
        dst: half(far, Part::Out),
        w,
        src: half(far, src),
        blocks: half(far, Part::MidBlocks),
        kq,
        inner,
        outer: graph::flat(s.n_embd),
    };
    if kq {
        seq![Op::Quantize { dst: half(far, Part::MidBlocks), src: half(far, src), width: inner }, mat]
    } else {
        seq![mat]
    }
}

fn push_out(v: &mut Vec<Op>, s: &Shape, far: bool, src: Part, w: Weight, kq: bool, inner: Width)
    ensures
        final(v)@ == old(v)@ + out_ops(s, far, src, w, kq, inner),
{
    if kq {
        v.push(
            Op::Quantize {
                dst: Buf::Half(far, Part::MidBlocks),
                src: Buf::Half(far, src),
                width: inner,
            },
        );
    }
    v.push(
        Op::Mat {
            dst: Buf::Half(far, Part::Out),
            w,
            src: Buf::Half(far, src),
            blocks: Buf::Half(far, Part::MidBlocks),
            kq,
            inner,
            outer: unit(s.n_embd),
        },
    );
    assert(v@ =~= old(v)@ + out_ops(s, far, src, w, kq, inner));
}

/// The raw rows and coefficients of the delta rule.
pub open spec fn gdn_rows_ops(s: &Shape, far: bool, d: GdnDims, packed: bool, m: Mats) -> Seq<Op> {
    let rows = seq![
        mat_in(s, far, Part::Qkv, Weight::Qkv, m.first, graph::flat(d.conv)),
        mat_in(s, far, Part::Z, Weight::Z, m.second, graph::flat(d.value)),
    ];
    if packed {
        rows + seq![
            Op::MulF {
                dst: half(far, Part::Packed),
                w: Weight::Coeffs,
                src: half(far, Part::In),
                from: s.n_embd,
                to: (2 * d.v_heads) as u32,
                rows: 1,
            },
            Op::Coeffs { far, packed: true },
        ]
    } else {
        rows + seq![
            Op::MulF {
                dst: half(far, Part::Decay),
                w: Weight::Decay,
                src: half(far, Part::In),
                from: s.n_embd,
                to: d.v_heads,
                rows: 1,
            },
            Op::MulF {
                dst: half(far, Part::Beta),
                w: Weight::Beta,
                src: half(far, Part::In),
                from: s.n_embd,
                to: d.v_heads,
                rows: 1,
            },
            Op::Coeffs { far, packed: false },
        ]
    }
}

fn push_gdn_rows(v: &mut Vec<Op>, s: &Shape, far: bool, d: GdnDims, packed: bool, m: Mats)
    requires
        2 * d.v_heads <= u32::MAX,
    ensures
        final(v)@ == old(v)@ + gdn_rows_ops(s, far, d, packed, m),
{
    v.push(make_mat_in(s, far, Part::Qkv, Weight::Qkv, m.first, unit(d.conv)));
    v.push(make_mat_in(s, far, Part::Z, Weight::Z, m.second, unit(d.value)));
    if packed {
        v.push(
            Op::MulF {
                dst: Buf::Half(far, Part::Packed),
                w: Weight::Coeffs,
                src: Buf::Half(far, Part::In),
                from: s.n_embd,
                to: 2 * d.v_heads,
                rows: 1,
            },
        );
    } else {
        v.push(
            Op::MulF {
                dst: Buf::Half(far, Part::Decay),
                w: Weight::Decay,
                src: Buf::Half(far, Part::In),
                from: s.n_embd,
                to: d.v_heads,
                rows: 1,
            },
        );
        v.push(
            Op::MulF {
                dst: Buf::Half(far, Part::Beta),
                w: Weight::Beta,
                src: Buf::Half(far, Part::In),
                from: s.n_embd,
                to: d.v_heads,
                rows: 1,
            },
        );
    }
    v.push(Op::Coeffs { far, packed });
    assert(v@ =~= old(v)@ + gdn_rows_ops(s, far, d, packed, m));
}

/// Convolution, norms, the delta rule over the state, and its gate.
pub open spec fn gdn_rule_ops(s: &Shape, far: bool, d: GdnDims, packed: bool) -> Seq<Op> {
    let keys = Width { n: d.k_heads, each: s.ssm_state };
    seq![
        Op::ConvRows { far },
        Op::SplitRows { far },
        Op::L2 { buf: half(far, Part::Gq), width: keys },
        Op::L2 { buf: half(far, Part::Gk), width: keys },
        Op::DeltaRule { far, packed },
        Op::HeadNorm {
            buf: half(far, Part::Delta),
            weight: Some(Weight::SsmNorm),
            width: Width { n: d.v_heads, each: s.ssm_state },
        },
        Op::Swiglu {
            dst: half(far, Part::Mixed),
            a: half(far, Part::Z),
            b: half(far, Part::Delta),
            width: graph::flat(d.value),
        },
    ]
}

fn push_gdn_rule(v: &mut Vec<Op>, s: &Shape, far: bool, d: GdnDims, packed: bool)
    ensures
        final(v)@ == old(v)@ + gdn_rule_ops(s, far, d, packed),
{
    let keys = Width { n: d.k_heads, each: s.ssm_state };
    v.push(Op::ConvRows { far });
    v.push(Op::SplitRows { far });
    v.push(Op::L2 { buf: Buf::Half(far, Part::Gq), width: keys });
    v.push(Op::L2 { buf: Buf::Half(far, Part::Gk), width: keys });
    v.push(Op::DeltaRule { far, packed });
    v.push(
        Op::HeadNorm {
            buf: Buf::Half(far, Part::Delta),
            weight: Some(Weight::SsmNorm),
            width: Width { n: d.v_heads, each: s.ssm_state },
        },
    );
    v.push(
        Op::Swiglu {
            dst: Buf::Half(far, Part::Mixed),
            a: Buf::Half(far, Part::Z),
            b: Buf::Half(far, Part::Delta),
            width: unit(d.value),
        },
    );
    assert(v@ =~= old(v)@ + gdn_rule_ops(s, far, d, packed));
}

/// What a replay of the state will need.
pub open spec fn stash_ops(on: bool) -> Seq<Op> {
    if on {
        seq![Op::Stash]
    } else {
        Seq::empty()
    }
}

/// A card's delta rule, from its input to its output.
pub open spec fn gdn_ops(s: &Shape, far: bool, d: GdnDims, packed: bool, m: Mats, stash: bool) -> Seq<Op> {
    gdn_rows_ops(s, far, d, packed, m) + stash_ops(stash) + gdn_rule_ops(s, far, d, packed) + out_ops(
        s,
        far,
        Part::Mixed,
        Weight::SsmOut,
        m.out,
        graph::flat(d.value),
    )
}

fn push_gdn(v: &mut Vec<Op>, s: &Shape, far: bool, d: GdnDims, packed: bool, m: Mats, stash: bool)
    requires
        2 * d.v_heads <= u32::MAX,
    ensures
        final(v)@ == old(v)@ + gdn_ops(s, far, d, packed, m, stash),
{
    let ghost w0 = v@;
    push_gdn_rows(v, s, far, d, packed, m);
    if stash {
        v.push(Op::Stash);
    }
    assert(v@ =~= w0 + (gdn_rows_ops(s, far, d, packed, m) + stash_ops(stash)));
    push_gdn_rule(v, s, far, d, packed);
    push_out(v, s, far, Part::Mixed, Weight::SsmOut, m.out, unit(d.value));
    assert(v@ =~= w0 + gdn_ops(s, far, d, packed, m, stash));
}

/// Queries with their gates, keys and values, normed and rotated.
pub open spec fn attn_rows_ops(s: &Shape, far: bool, nh: u32, nkv: u32, on_card: bool, m: Mats) -> Seq<Op> {
    let q = Width { n: nh, each: s.head_dim };
    let kv = Width { n: nkv, each: s.head_dim };
    seq![
        mat_in(
            s,
            far,
            Part::QueryGate,
            Weight::MixQ,
            m.first,
            Width { n: nh, each: (2 * s.head_dim) as u32 },
        ),
        Op::SplitGate { far },
        mat_in(s, far, Part::K, Weight::MixK, m.second, kv),
        mat_in(s, far, Part::V, Weight::MixV, m.third, kv),
        Op::HeadNorm { buf: half(far, Part::Q), weight: Some(Weight::QNorm), width: q },
        Op::HeadNorm { buf: half(far, Part::K), weight: Some(Weight::KNorm), width: kv },
        Op::RopeHalf { buf: half(far, Part::Q), width: q, on_card },
        Op::RopeHalf { buf: half(far, Part::K), width: kv, on_card },
    ]
}

fn push_attn_rows(v: &mut Vec<Op>, s: &Shape, far: bool, nh: u32, nkv: u32, on_card: bool, m: Mats)
    requires
        2 * s.head_dim <= u32::MAX,
    ensures
        final(v)@ == old(v)@ + attn_rows_ops(s, far, nh, nkv, on_card, m),
{
    let q = Width { n: nh, each: s.head_dim };
    let kv = Width { n: nkv, each: s.head_dim };
    v.push(
        make_mat_in(
            s,
            far,
            Part::QueryGate,
            Weight::MixQ,
            m.first,
            Width { n: nh, each: 2 * s.head_dim },
        ),
    );
    v.push(Op::SplitGate { far });
    v.push(make_mat_in(s, far, Part::K, Weight::MixK, m.second, kv));
    v.push(make_mat_in(s, far, Part::V, Weight::MixV, m.third, kv));
    v.push(Op::HeadNorm { buf: Buf::Half(far, Part::Q), weight: Some(Weight::QNorm), width: q });
    v.push(Op::HeadNorm { buf: Buf::Half(far, Part::K), weight: Some(Weight::KNorm), width: kv });
    v.push(Op::RopeHalf { buf: Buf::Half(far, Part::Q), width: q, on_card });
    v.push(Op::RopeHalf { buf: Buf::Half(far, Part::K), width: kv, on_card });
    assert(v@ =~= old(v)@ + attn_rows_ops(s, far, nh, nkv, on_card, m));
}

/// Packed caches hold rotated keys; queries are rotated alike.
pub open spec fn turn_ops(s: &Shape, far: bool, nh: u32, nkv: u32, rotate: bool) -> Seq<Op> {
    if rotate {
        seq![
            Op::MulF {
                dst: half(far, Part::RotK),
                w: Weight::Rotate,
                src: half(far, Part::K),
                from: s.head_dim,
                to: s.head_dim,
                rows: nkv,
            },
            Op::MulF {
                dst: half(far, Part::RotQ),
                w: Weight::Rotate,
                src: half(far, Part::Q),
                from: s.head_dim,
                to: s.head_dim,
                rows: nh,
            },
        ]
    } else {
        Seq::empty()
    }
}

fn push_turn(v: &mut Vec<Op>, s: &Shape, far: bool, nh: u32, nkv: u32, rotate: bool)
    ensures
        final(v)@ == old(v)@ + turn_ops(s, far, nh, nkv, rotate),
{
    if rotate {
        v.push(
            Op::MulF {
                dst: Buf::Half(far, Part::RotK),
                w: Weight::Rotate,
                src: Buf::Half(far, Part::K),
                from: s.head_dim,
                to: s.head_dim,
                rows: nkv,
            },
        );
        v.push(
            Op::MulF {
                dst: Buf::Half(far, Part::RotQ),
                w: Weight::Rotate,
                src: Buf::Half(far, Part::Q),
                from: s.head_dim,
                to: s.head_dim,
                rows: nh,
            },
        );
    }
    assert(v@ =~= old(v)@ + turn_ops(s, far, nh, nkv, rotate));
}

/// Keys and values join their caches, and the queries attend to them.
pub open spec fn attend_ops(far: bool, on_card: bool, rotate: bool) -> Seq<Op> {
    seq![
        Op::AppendHalf {
            far,
            key: true,
            src: half(
                far,
                if rotate {
                    Part::RotK
                } else {
                    Part::K
                },
            ),
            on_card,
        },
        Op::AppendHalf { far, key: false, src: half(far, Part::V), on_card },
        Op::AttendHalf {
            far,
            src: half(
                far,
                if rotate {
                    Part::RotQ
                } else {
                    Part::Q
                },
            ),
            on_card,
        },
        Op::GateRows { far },
    ]
}

fn push_attend(v: &mut Vec<Op>, far: bool, on_card: bool, rotate: bool)
    ensures
        final(v)@ == old(v)@ + attend_ops(far, on_card, rotate),
{
    let k: Part = if rotate {
        Part::RotK
    } else {
        Part::K
    };
    let q: Part = if rotate {
        Part::RotQ
    } else {
        Part::Q
    };
    v.push(Op::AppendHalf { far, key: true, src: Buf::Half(far, k), on_card });
    v.push(Op::AppendHalf { far, key: false, src: Buf::Half(far, Part::V), on_card });
    v.push(Op::AttendHalf { far, src: Buf::Half(far, q), on_card });
    v.push(Op::GateRows { far });
    assert(v@ =~= old(v)@ + attend_ops(far, on_card, rotate));
}

/// A card's gated attention, from its input to its output.
pub open spec fn attn_ops(
    s: &Shape,
    far: bool,
    nh: u32,
    nkv: u32,
    on_card: bool,
    rotate: bool,
    m: Mats,
) -> Seq<Op> {
    attn_rows_ops(s, far, nh, nkv, on_card, m) + turn_ops(s, far, nh, nkv, rotate) + attend_ops(
        far,
        on_card,
        rotate,
    ) + out_ops(
        s,
        far,
        Part::Heads,
        Weight::MixOut,
        m.out,
        Width { n: nh, each: s.head_dim },
    )
}

fn push_attn(v: &mut Vec<Op>, s: &Shape, far: bool, nh: u32, nkv: u32, on_card: bool, rotate: bool, m: Mats)
    requires
        2 * s.head_dim <= u32::MAX,
    ensures
        final(v)@ == old(v)@ + attn_ops(s, far, nh, nkv, on_card, rotate, m),
{
    let ghost w0 = v@;
    push_attn_rows(v, s, far, nh, nkv, on_card, m);
    push_turn(v, s, far, nh, nkv, rotate);
    push_attend(v, far, on_card, rotate);
    push_out(v, s, far, Part::Heads, Weight::MixOut, m.out, Width { n: nh, each: s.head_dim });
    assert(v@ =~= w0 + attn_ops(s, far, nh, nkv, on_card, rotate, m));
}

/// A mixer's chain on one card.
pub open spec fn chain_ops(s: &Shape, x: Mixer, d: GdnDims, far: bool, m: Mats, stash: bool) -> Seq<Op> {
    match x {
        Mixer::Gdn { packed, .. } => gdn_ops(s, far, d, packed, m, stash),
        Mixer::Attn { n_head, n_head_kv, device_pos, rotate, .. } => attn_ops(
            s,
            far,
            n_head,
            n_head_kv,
            device_pos,
            rotate,
            m,
        ),
    }
}

fn push_chain(v: &mut Vec<Op>, s: &Shape, x: Mixer, d: GdnDims, far: bool, m: Mats, stash: bool)
    requires
        2 * d.v_heads <= u32::MAX,
        2 * s.head_dim <= u32::MAX,
    ensures
        final(v)@ == old(v)@ + chain_ops(s, x, d, far, m, stash),
{
    match x {
        Mixer::Gdn { packed, .. } => push_gdn(v, s, far, d, packed, m, stash),
        Mixer::Attn { n_head, n_head_kv, device_pos, rotate, .. } => push_attn(
            v,
            s,
            far,
            n_head,
            n_head_kv,
            device_pos,
            rotate,
            m,
        ),
    }
}

pub open spec fn is_halved(x: Mixer) -> bool {
    match x {
        Mixer::Gdn { halved, .. } => halved,
        Mixer::Attn { halved, .. } => halved,
    }
}

/// Send the input to the second card, which makes its own blocks.
pub open spec fn out_bound_ops(s: &Shape, far_kq: bool) -> Seq<Op> {
    let base = seq![
        quant_in(s, false),
        Op::Send { src: half(false, Part::In), back: false },
        Op::On(Place::Second),
        Op::Recv { dst: half(true, Part::In), back: false },
    ];
    if far_kq {
        base + seq![quant_in(s, true)]
    } else {
        base
    }
}

/// Send a partial sum back, and go on with the first card.
pub open spec fn return_ops(src: Buf) -> Seq<Op> {
    seq![Op::Send { src, back: true }, Op::On(Place::Primary)]
}

/// Add what the second card sent.
pub open spec fn join_ops(dst: Buf) -> Seq<Op> {
    seq![
        Op::Recv { dst: half(false, Part::Recv), back: true },
        Op::AddIn { dst, src: half(false, Part::Recv) },
    ]
}

/// The mixer of a layer: on one card, or half on each, the second card's
/// chain launched first.
pub open spec fn mixer_ops(s: &Shape, x: Mixer, d: GdnDims, near: Mats, far: Mats, stash: bool) -> Seq<Op> {
    if is_halved(x) {
        out_bound_ops(s, far.first) + chain_ops(s, x, d, true, far, false) + return_ops(
            half(true, Part::Out),
        ) + chain_ops(s, x, d, false, near, false) + join_ops(half(false, Part::Out))
    } else if near.first {
        seq![quant_in(s, false)] + chain_ops(s, x, d, false, near, stash)
    } else {
        Seq::<Op>::empty() + chain_ops(s, x, d, false, near, stash)
    }
}

proof fn lemma_assoc(w: Seq<Op>, a: Seq<Op>, b: Seq<Op>)
    ensures
        w + a + b == w + (a + b),
{
    assert(w + a + b =~= w + (a + b));
}

fn push_out_bound(v: &mut Vec<Op>, s: &Shape, far_kq: bool)
    ensures
        final(v)@ == old(v)@ + out_bound_ops(s, far_kq),
{
    v.push(make_quant_in(s, false));
    v.push(Op::Send { src: Buf::Half(false, Part::In), back: false });
    v.push(Op::On(Place::Second));
    v.push(Op::Recv { dst: Buf::Half(true, Part::In), back: false });
    if far_kq {
        v.push(make_quant_in(s, true));
    }
    assert(v@ =~= old(v)@ + out_bound_ops(s, far_kq));
}

fn push_return(v: &mut Vec<Op>, src: Buf)
    ensures
        final(v)@ == old(v)@ + return_ops(src),
{
    v.push(Op::Send { src, back: true });
    v.push(Op::On(Place::Primary));
    assert(v@ =~= old(v)@ + return_ops(src));
}

fn push_join(v: &mut Vec<Op>, dst: Buf)
    ensures
        final(v)@ == old(v)@ + join_ops(dst),
{
    v.push(Op::Recv { dst: Buf::Half(false, Part::Recv), back: true });
    v.push(Op::AddIn { dst, src: Buf::Half(false, Part::Recv) });
    assert(v@ =~= old(v)@ + join_ops(dst));
}

fn push_halves(v: &mut Vec<Op>, s: &Shape, x: Mixer, d: GdnDims, near: Mats, far: Mats)
    requires
        2 * d.v_heads <= u32::MAX,
        2 * s.head_dim <= u32::MAX,
        is_halved(x),
    ensures
        final(v)@ == old(v)@ + mixer_ops(s, x, d, near, far, false),
{
    let ghost w = v@;
    let ghost a1 = out_bound_ops(s, far.first);
    let ghost b = chain_ops(s, x, d, true, far, false);
    let ghost c = return_ops(half(true, Part::Out));
    let ghost e = chain_ops(s, x, d, false, near, false);
    let ghost f = join_ops(half(false, Part::Out));
    push_out_bound(v, s, far.first);
    push_chain(v, s, x, d, true, far, false);
    push_return(v, Buf::Half(true, Part::Out));
    push_chain(v, s, x, d, false, near, false);
    push_join(v, Buf::Half(false, Part::Out));
    proof {
        lemma_assoc(w, a1, b);
        lemma_assoc(w, a1 + b, c);
        lemma_assoc(w, a1 + b + c, e);
        lemma_assoc(w, a1 + b + c + e, f);
    }
}

fn push_mixer(v: &mut Vec<Op>, s: &Shape, x: Mixer, d: GdnDims, near: Mats, far: Mats, stash: bool)
    requires
        2 * d.v_heads <= u32::MAX,
        2 * s.head_dim <= u32::MAX,
    ensures
        final(v)@ == old(v)@ + mixer_ops(s, x, d, near, far, stash),
{
    let ghost w = v@;
    let halved: bool = match x {
        Mixer::Gdn { halved, .. } => halved,
        Mixer::Attn { halved, .. } => halved,
    };
    if halved {
        push_halves(v, s, x, d, near, far);
    } else {
        let ghost quant = if near.first {
            seq![quant_in(s, false)]
        } else {
            Seq::<Op>::empty()
        };
        if near.first {
            v.push(make_quant_in(s, false));
        }
        assert(v@ =~= w + quant);
        push_chain(v, s, x, d, false, near, stash);
        proof {
            lemma_assoc(w, quant, chain_ops(s, x, d, false, near, stash));
        }
    }
}

/// The residual, and the feed-forward's input.
pub open spec fn close_ops(s: &Shape) -> Seq<Op> {
    seq![
        Op::Add { dst: Buf::AfterAttn, a: Buf::Cur, b: half(false, Part::Out) },
        Op::Norm {
            dst: half(false, Part::In),
            src: Buf::AfterAttn,
            w: Weight::FfnNorm,
            width: graph::flat(s.n_embd),
        },
    ]
}

/// The mixing half of a hybrid layer.
pub open spec fn mix_half_ops(
    s: &Shape,
    c: Capture,
    x: Mixer,
    d: GdnDims,
    near: Mats,
    far: Mats,
    stash: bool,
) -> Seq<Op> {
    Seq::<Op>::empty() + start_ops(s, c) + mixer_ops(s, x, d, near, far, stash) + close_ops(s)
}

/// The launches of a hybrid layer's mixing half.
pub fn plan_mix_half(
    s: &Shape,
    c: Capture,
    x: Mixer,
    d: GdnDims,
    near: Mats,
    far: Mats,
    stash: bool,
) -> (v: Vec<Op>)
    requires
        2 * d.v_heads <= u32::MAX,
        2 * s.head_dim <= u32::MAX,
    ensures
        v@ == mix_half_ops(s, c, x, d, near, far, stash),
{
    let mut v: Vec<Op> = Vec::new();
    push_start(&mut v, s, c);
    push_mixer(&mut v, s, x, d, near, far, stash);
    let ghost was = v@;
    v.push(Op::Add { dst: Buf::AfterAttn, a: Buf::Cur, b: Buf::Half(false, Part::Out) });
    v.push(
        Op::Norm {
            dst: Buf::Half(false, Part::In),
            src: Buf::AfterAttn,
            w: Weight::FfnNorm,
            width: unit(s.n_embd),
        },
    );
    assert(v@ =~= was + close_ops(s));
    v
}

/// A card's resident feed-forward of width `w`, from its blocks.
pub open spec fn resident_ops(s: &Shape, far: bool, w: u32) -> Seq<Op> {
    seq![
        mat_in(s, far, Part::GateAct, Weight::ResidentGate, true, graph::flat(w)),
        mat_in(s, far, Part::UpAct, Weight::ResidentUp, true, graph::flat(w)),
        Op::Swiglu {
            dst: half(far, Part::Mid),
            a: half(far, Part::GateAct),
            b: half(far, Part::UpAct),
            width: graph::flat(w),
        },
        Op::Quantize { dst: half(far, Part::MidBlocks), src: half(far, Part::Mid), width: graph::flat(w) },
        Op::Mat {
            dst: half(far, Part::FfnOut),
            w: Weight::ResidentDown,
            src: half(far, Part::Mid),
            blocks: half(far, Part::MidBlocks),
            kq: true,
            inner: graph::flat(w),
            outer: graph::flat(s.n_embd),
        },
    ]
}

fn push_resident(v: &mut Vec<Op>, s: &Shape, far: bool, w: u32)
    ensures
        final(v)@ == old(v)@ + resident_ops(s, far, w),
{
    v.push(make_mat_in(s, far, Part::GateAct, Weight::ResidentGate, true, unit(w)));
    v.push(make_mat_in(s, far, Part::UpAct, Weight::ResidentUp, true, unit(w)));
    v.push(
        Op::Swiglu {
            dst: Buf::Half(far, Part::Mid),
            a: Buf::Half(far, Part::GateAct),
            b: Buf::Half(far, Part::UpAct),
            width: unit(w),
        },
    );
    v.push(
        Op::Quantize {
            dst: Buf::Half(far, Part::MidBlocks),
            src: Buf::Half(far, Part::Mid),
            width: unit(w),
        },
    );
    v.push(
        Op::Mat {
            dst: Buf::Half(far, Part::FfnOut),
            w: Weight::ResidentDown,
            src: Buf::Half(far, Part::Mid),
            blocks: Buf::Half(far, Part::MidBlocks),
            kq: true,
            inner: unit(w),
            outer: unit(s.n_embd),
        },
    );
    assert(v@ =~= old(v)@ + resident_ops(s, far, w));
}

/// Send the blocks to the second card.
pub open spec fn blocks_out_ops(s: &Shape) -> Seq<Op> {
    seq![
        quant_in(s, false),
        Op::Send { src: half(false, Part::Blocks), back: false },
        Op::On(Place::Second),
        Op::Recv { dst: half(true, Part::Blocks), back: false },
    ]
}

/// The stream's residual.
pub open spec fn stream_op(b: Buf) -> Op {
    Op::Add { dst: Buf::Cur, a: Buf::AfterAttn, b }
}

/// The router, the always-on expert behind its own gate, and the blocks.
pub open spec fn hybrid_router_ops(s: &Shape, shared: bool) -> Seq<Op> {
    let x = half(false, Part::In);
    let w = s.n_ff_exp;
    let route = seq![
        Op::MulF {
            dst: Buf::RouterLogits,
            w: Weight::Router,
            src: x,
            from: s.n_embd,
            to: s.n_expert,
            rows: 1,
        },
        Op::Select { pred: false },
    ];
    let always = if shared {
        seq![
            Op::Mul {
                dst: Buf::GateAct,
                w: Weight::SharedGate,
                src: x,
                inner: graph::flat(s.n_embd),
                outer: graph::flat(w),
            },
            Op::Mul {
                dst: Buf::UpAct,
                w: Weight::SharedUp,
                src: x,
                inner: graph::flat(s.n_embd),
                outer: graph::flat(w),
            },
            Op::Swiglu { dst: Buf::FfnMid, a: Buf::GateAct, b: Buf::UpAct, width: graph::flat(w) },
            Op::Mul {
                dst: Buf::SharedOut,
                w: Weight::SharedDown,
                src: Buf::FfnMid,
                inner: graph::flat(w),
                outer: graph::flat(s.n_embd),
            },
            Op::MulF {
                dst: Buf::SharedGate,
                w: Weight::SharedGateIn,
                src: x,
                from: s.n_embd,
                to: 1,
                rows: 1,
            },
            Op::GateShared,
        ]
    } else {
        seq![Op::Zero { buf: Buf::SharedOut }]
    };
    route + always + seq![quant_in(s, false)]
}

fn push_hybrid_router(v: &mut Vec<Op>, s: &Shape, shared: bool)
    ensures
        final(v)@ == old(v)@ + hybrid_router_ops(s, shared),
{
    let x: Buf = Buf::Half(false, Part::In);
    let w: u32 = s.n_ff_exp;
    v.push(
        Op::MulF {
            dst: Buf::RouterLogits,
            w: Weight::Router,
            src: x,
            from: s.n_embd,
            to: s.n_expert,
            rows: 1,
        },
    );
    v.push(Op::Select { pred: false });
    if shared {
        v.push(
            Op::Mul {
                dst: Buf::GateAct,
                w: Weight::SharedGate,
                src: x,
                inner: unit(s.n_embd),
                outer: unit(w),
            },
        );
        v.push(
            Op::Mul {
                dst: Buf::UpAct,
                w: Weight::SharedUp,
                src: x,
                inner: unit(s.n_embd),
                outer: unit(w),
            },
        );
        v.push(Op::Swiglu { dst: Buf::FfnMid, a: Buf::GateAct, b: Buf::UpAct, width: unit(w) });
        v.push(
            Op::Mul {
                dst: Buf::SharedOut,
                w: Weight::SharedDown,
                src: Buf::FfnMid,
                inner: unit(w),
                outer: unit(s.n_embd),
            },
        );
        v.push(
            Op::MulF {
                dst: Buf::SharedGate,
                w: Weight::SharedGateIn,
                src: x,
                from: s.n_embd,
                to: 1,
                rows: 1,
            },
        );
        v.push(Op::GateShared);
    } else {
        v.push(Op::Zero { buf: Buf::SharedOut });
    }
    v.push(make_quant_in(s, false));
    assert(v@ =~= old(v)@ + hybrid_router_ops(s, shared));
}

/// Routed experts, and the residual.
pub open spec fn hybrid_experts_ops() -> Seq<Op> {
    seq![
        Op::Experts,
        Op::Add { dst: Buf::FfnOut, a: Buf::MoeOut, b: Buf::SharedOut },
        stream_op(Buf::FfnOut),
    ]
}

/// The feed-forward half of a hybrid layer. `half_width` is the width of a
/// halved one on each card.
pub open spec fn ffn_half_ops(s: &Shape, f: HybridFfn, half_width: u32) -> Seq<Op> {
    match f {
        HybridFfn::Dense => seq![quant_in(s, false)] + resident_ops(s, false, s.n_ff_exp) + seq![
            stream_op(half(false, Part::FfnOut)),
        ],
        HybridFfn::Halved => blocks_out_ops(s) + resident_ops(s, true, half_width) + return_ops(
            half(true, Part::FfnOut),
        ) + resident_ops(s, false, half_width) + join_ops(half(false, Part::FfnOut)) + seq![
            stream_op(half(false, Part::FfnOut)),
        ],
        HybridFfn::Experts { shared } => hybrid_router_ops(s, shared) + hybrid_experts_ops(),
    }
}

/// The launches of a hybrid layer's feed-forward half.
pub fn plan_ffn_half(s: &Shape, f: HybridFfn, half_width: u32) -> (v: Vec<Op>)
    ensures
        v@ == ffn_half_ops(s, f, half_width),
{
    let mut v: Vec<Op> = Vec::new();
    let out: Buf = Buf::Half(false, Part::FfnOut);
    match f {
        HybridFfn::Dense => {
            v.push(make_quant_in(s, false));
            assert(v@ =~= seq![quant_in(s, false)]);
            push_resident(&mut v, s, false, s.n_ff_exp);
            let ghost w = v@;
            v.push(Op::Add { dst: Buf::Cur, a: Buf::AfterAttn, b: out });
            assert(v@ =~= w + seq![stream_op(half(false, Part::FfnOut))]);
        },
        HybridFfn::Halved => {
            v.push(make_quant_in(s, false));
            v.push(Op::Send { src: Buf::Half(false, Part::Blocks), back: false });
            v.push(Op::On(Place::Second));
            v.push(Op::Recv { dst: Buf::Half(true, Part::Blocks), back: false });
            assert(v@ =~= blocks_out_ops(s));
            push_resident(&mut v, s, true, half_width);
            let ghost w0 = v@;
            v.push(Op::Send { src: Buf::Half(true, Part::FfnOut), back: true });
            v.push(Op::On(Place::Primary));
            assert(v@ =~= w0 + return_ops(half(true, Part::FfnOut)));
            push_resident(&mut v, s, false, half_width);
            let ghost w1 = v@;
            v.push(Op::Recv { dst: Buf::Half(false, Part::Recv), back: true });
            v.push(Op::AddIn { dst: out, src: Buf::Half(false, Part::Recv) });
            assert(v@ =~= w1 + join_ops(half(false, Part::FfnOut)));
            let ghost w2 = v@;
            v.push(Op::Add { dst: Buf::Cur, a: Buf::AfterAttn, b: out });
            assert(v@ =~= w2 + seq![stream_op(half(false, Part::FfnOut))]);
        },
        HybridFfn::Experts { shared } => {
            push_hybrid_router(&mut v, s, shared);
            assert(v@ =~= hybrid_router_ops(s, shared));
            let ghost w = v@;
            v.push(Op::Experts);
            v.push(Op::Add { dst: Buf::FfnOut, a: Buf::MoeOut, b: Buf::SharedOut });
            v.push(Op::Add { dst: Buf::Cur, a: Buf::AfterAttn, b: Buf::FfnOut });
            assert(v@ =~= w + hybrid_experts_ops());
        },
    }
    v
}

/// A card's input, and its blocks where some weight reads them.
pub open spec fn fed(have: Set<Buf>, far: bool, m: Mats) -> bool {
    &&& have.contains(half(far, Part::In))
    &&& m.first || m.second || m.third ==> have.contains(half(far, Part::Blocks))
}

proof fn lemma_gdn_rows(s: &Shape, far: bool, d: GdnDims, packed: bool, m: Mats, have: Set<Buf>, card: Place)
    requires
        fed(have, far, m),
    ensures
        graph::makes(gdn_rows_ops(s, far, d, packed, m), have, card, half(far, Part::Qkv)),
        graph::makes(gdn_rows_ops(s, far, d, packed, m), have, card, half(far, Part::Z)),
        packed ==> graph::makes(gdn_rows_ops(s, far, d, packed, m), have, card, half(far, Part::Packed)),
        !packed ==> graph::makes(gdn_rows_ops(s, far, d, packed, m), have, card, half(far, Part::Decay)),
        !packed ==> graph::makes(gdn_rows_ops(s, far, d, packed, m), have, card, half(far, Part::Beta)),
{
    reveal_with_fuel(graph::sound, 6);
    reveal_with_fuel(graph::after, 6);
    reveal_with_fuel(graph::card_after, 6);
}

proof fn lemma_gdn_rule(s: &Shape, far: bool, d: GdnDims, packed: bool, have: Set<Buf>, card: Place)
    requires
        have.contains(half(far, Part::Qkv)),
        have.contains(half(far, Part::Z)),
        packed ==> have.contains(half(far, Part::Packed)),
        !packed ==> have.contains(half(far, Part::Decay)) && have.contains(half(far, Part::Beta)),
    ensures
        graph::makes(gdn_rule_ops(s, far, d, packed), have, card, half(far, Part::Mixed)),
{
    reveal_with_fuel(graph::sound, 8);
    reveal_with_fuel(graph::after, 8);
    reveal_with_fuel(graph::card_after, 8);
}

proof fn lemma_stash(on: bool, have: Set<Buf>, card: Place)
    requires
        on ==> have.contains(half(false, Part::Qkv)) && have.contains(half(false, Part::Decay))
            && have.contains(half(false, Part::Beta)),
    ensures
        graph::sound(stash_ops(on), 0, have),
        graph::card_after(stash_ops(on), 0, card) == card,
{
    reveal_with_fuel(graph::sound, 2);
    reveal_with_fuel(graph::card_after, 2);
}

proof fn lemma_out(s: &Shape, far: bool, src: Part, w: Weight, kq: bool, inner: Width, have: Set<Buf>, card: Place)
    requires
        have.contains(half(far, src)),
    ensures
        graph::makes(out_ops(s, far, src, w, kq, inner), have, card, half(far, Part::Out)),
{
    reveal_with_fuel(graph::sound, 3);
    reveal_with_fuel(graph::after, 3);
    reveal_with_fuel(graph::card_after, 3);
}

proof fn lemma_gdn(s: &Shape, far: bool, d: GdnDims, packed: bool, m: Mats, stash: bool, have: Set<Buf>, card: Place)
    requires
        fed(have, far, m),
        stash ==> !far && !packed,
    ensures
        graph::makes(gdn_ops(s, far, d, packed, m, stash), have, card, half(far, Part::Out)),
{
    let a = gdn_rows_ops(s, far, d, packed, m);
    let b = stash_ops(stash);
    let c = gdn_rule_ops(s, far, d, packed);
    let e = out_ops(s, far, Part::Mixed, Weight::SsmOut, m.out, graph::flat(d.value));
    lemma_gdn_rows(s, far, d, packed, m, have, card);
    lemma_stash(stash, graph::after(a, 0, have), card);
    graph::lemma_step(a, b, have, card);
    lemma_gdn_rule(s, far, d, packed, graph::after(a + b, 0, have), card);
    graph::lemma_step(a + b, c, have, card);
    lemma_out(
        s,
        far,
        Part::Mixed,
        Weight::SsmOut,
        m.out,
        graph::flat(d.value),
        graph::after(a + b + c, 0, have),
        card,
    );
    graph::lemma_step(a + b + c, e, have, card);
}

proof fn lemma_attn_rows(s: &Shape, far: bool, nh: u32, nkv: u32, on_card: bool, m: Mats, have: Set<Buf>, card: Place)
    requires
        fed(have, far, m),
    ensures
        graph::makes(attn_rows_ops(s, far, nh, nkv, on_card, m), have, card, half(far, Part::Q)),
        graph::makes(attn_rows_ops(s, far, nh, nkv, on_card, m), have, card, half(far, Part::K)),
        graph::makes(attn_rows_ops(s, far, nh, nkv, on_card, m), have, card, half(far, Part::V)),
        graph::makes(attn_rows_ops(s, far, nh, nkv, on_card, m), have, card, half(far, Part::Gate)),
{
    reveal_with_fuel(graph::sound, 9);
    reveal_with_fuel(graph::after, 9);
    reveal_with_fuel(graph::card_after, 9);
}

proof fn lemma_turn(s: &Shape, far: bool, nh: u32, nkv: u32, on_card: bool, rotate: bool, have: Set<Buf>, card: Place)
    requires
        have.contains(half(far, Part::Q)),
        have.contains(half(far, Part::K)),
        have.contains(half(far, Part::V)),
        have.contains(half(far, Part::Gate)),
    ensures
        graph::makes(turn_ops(s, far, nh, nkv, rotate), have, card, half(far, Part::Q)),
        rotate ==> graph::after(turn_ops(s, far, nh, nkv, rotate), 0, have).contains(
            half(far, Part::RotK),
        ),
        rotate ==> graph::after(turn_ops(s, far, nh, nkv, rotate), 0, have).contains(
            half(far, Part::RotQ),
        ),
        (rotate ==> have.contains(half(far, Part::RotK)) && have.contains(half(far, Part::RotQ)))
            ==> graph::makes(attend_ops(far, on_card, rotate), have, card, half(far, Part::Heads)),
{
    reveal_with_fuel(graph::sound, 5);
    reveal_with_fuel(graph::after, 5);
    reveal_with_fuel(graph::card_after, 5);
}

proof fn lemma_attn(
    s: &Shape,
    far: bool,
    nh: u32,
    nkv: u32,
    on_card: bool,
    rotate: bool,
    m: Mats,
    have: Set<Buf>,
    card: Place,
)
    requires
        fed(have, far, m),
    ensures
        graph::makes(attn_ops(s, far, nh, nkv, on_card, rotate, m), have, card, half(far, Part::Out)),
{
    let a = attn_rows_ops(s, far, nh, nkv, on_card, m);
    let b = turn_ops(s, far, nh, nkv, rotate);
    let c = attend_ops(far, on_card, rotate);
    let w = Width { n: nh, each: s.head_dim };
    let e = out_ops(s, far, Part::Heads, Weight::MixOut, m.out, w);
    lemma_attn_rows(s, far, nh, nkv, on_card, m, have, card);
    lemma_turn(s, far, nh, nkv, on_card, rotate, graph::after(a, 0, have), card);
    graph::lemma_step(a, b, have, card);
    lemma_turn(s, far, nh, nkv, on_card, rotate, graph::after(a + b, 0, have), card);
    graph::lemma_step(a + b, c, have, card);
    lemma_out(
        s,
        far,
        Part::Heads,
        Weight::MixOut,
        m.out,
        w,
        graph::after(a + b + c, 0, have),
        card,
    );
    graph::lemma_step(a + b + c, e, have, card);
}

proof fn lemma_chain(s: &Shape, x: Mixer, d: GdnDims, far: bool, m: Mats, stash: bool, have: Set<Buf>, card: Place)
    requires
        fed(have, far, m),
        stash ==> !far && !(x matches Mixer::Gdn { packed, .. } && packed),
    ensures
        graph::makes(chain_ops(s, x, d, far, m, stash), have, card, half(far, Part::Out)),
{
    match x {
        Mixer::Gdn { packed, .. } => {
            lemma_gdn(s, far, d, packed, m, stash, have, card);
        },
        Mixer::Attn { n_head, n_head_kv, device_pos, rotate, .. } => {
            lemma_attn(s, far, n_head, n_head_kv, device_pos, rotate, m, have, card);
        },
    }
}

proof fn lemma_out_bound(s: &Shape, far_kq: bool, have: Set<Buf>)
    requires
        have.contains(half(false, Part::In)),
    ensures
        graph::sound(out_bound_ops(s, far_kq), 0, have),
        graph::card_after(out_bound_ops(s, far_kq), 0, Place::Primary) == Place::Second,
        graph::after(out_bound_ops(s, far_kq), 0, have).contains(half(false, Part::In)),
        graph::after(out_bound_ops(s, far_kq), 0, have).contains(half(false, Part::Blocks)),
        graph::after(out_bound_ops(s, far_kq), 0, have).contains(half(true, Part::In)),
        far_kq ==> graph::after(out_bound_ops(s, far_kq), 0, have).contains(half(true, Part::Blocks)),
{
    reveal_with_fuel(graph::sound, 6);
    reveal_with_fuel(graph::after, 6);
    reveal_with_fuel(graph::card_after, 6);
}

proof fn lemma_return(src: Buf, dst: Buf, have: Set<Buf>)
    ensures
        have.contains(src) ==> graph::sound(return_ops(src), 0, have),
        have.contains(src) ==> graph::after(return_ops(src), 0, have).contains(Buf::LinkBack),
        graph::card_after(return_ops(src), 0, Place::Second) == Place::Primary,
        have.contains(dst) && have.contains(Buf::LinkBack) ==> graph::makes(
            join_ops(dst),
            have,
            Place::Primary,
            dst,
        ),
{
    reveal_with_fuel(graph::sound, 3);
    reveal_with_fuel(graph::after, 3);
    reveal_with_fuel(graph::card_after, 3);
}

proof fn lemma_mixer(s: &Shape, x: Mixer, d: GdnDims, near: Mats, far: Mats, stash: bool, have: Set<Buf>)
    requires
        have.contains(half(false, Part::In)),
        alike(near),
        alike(far),
        stash ==> !(x matches Mixer::Gdn { packed, .. } && packed),
    ensures
        graph::makes(
            mixer_ops(s, x, d, near, far, stash),
            have,
            Place::Primary,
            half(false, Part::Out),
        ),
{
    let pr = Place::Primary;
    if is_halved(x) {
        let a = out_bound_ops(s, far.first);
        let b = chain_ops(s, x, d, true, far, false);
        let c = return_ops(half(true, Part::Out));
        let e = chain_ops(s, x, d, false, near, false);
        let f = join_ops(half(false, Part::Out));
        lemma_out_bound(s, far.first, have);
        lemma_chain(s, x, d, true, far, false, graph::after(a, 0, have), Place::Second);
        graph::lemma_step(a, b, have, pr);
        lemma_return(half(true, Part::Out), half(false, Part::Out), graph::after(a + b, 0, have));
        graph::lemma_step(a + b, c, have, pr);
        lemma_chain(s, x, d, false, near, false, graph::after(a + b + c, 0, have), pr);
        graph::lemma_step(a + b + c, e, have, pr);
        lemma_return(
            half(true, Part::Out),
            half(false, Part::Out),
            graph::after(a + b + c + e, 0, have),
        );
        graph::lemma_step(a + b + c + e, f, have, pr);
    } else {
        let quant = if near.first {
            seq![quant_in(s, false)]
        } else {
            Seq::<Op>::empty()
        };
        let e = chain_ops(s, x, d, false, near, stash);
        assert(graph::makes(quant, have, pr, half(false, Part::In))) by {
            reveal_with_fuel(graph::sound, 2);
            reveal_with_fuel(graph::after, 2);
            reveal_with_fuel(graph::card_after, 2);
        }
        assert(near.first ==> graph::after(quant, 0, have).contains(half(false, Part::Blocks))) by {
            reveal_with_fuel(graph::after, 2);
        }
        lemma_chain(s, x, d, false, near, stash, graph::after(quant, 0, have), pr);
        graph::lemma_step(quant, e, have, pr);
    }
}

/// The mixing half of a hybrid layer reads nothing before it is written, on
/// one card or on two; it ends on the first card, with the residual and the
/// feed-forward's input written. A replay's needs are kept only where the
/// coefficients lie apart.
pub proof fn mix_half_is_sound(
    s: &Shape,
    c: Capture,
    x: Mixer,
    d: GdnDims,
    near: Mats,
    far: Mats,
    stash: bool,
)
    requires
        alike(near),
        alike(far),
        stash ==> !(x matches Mixer::Gdn { packed, .. } && packed),
    ensures
        graph::runs(mix_half_ops(s, c, x, d, near, far, stash), set![Buf::Cur], Place::Primary),
        graph::after(mix_half_ops(s, c, x, d, near, far, stash), 0, set![Buf::Cur]).contains(
            Buf::AfterAttn,
        ),
        graph::after(mix_half_ops(s, c, x, d, near, far, stash), 0, set![Buf::Cur]).contains(
            half(false, Part::In),
        ),
{
    let h0 = set![Buf::Cur];
    let pr = Place::Primary;
    let e = Seq::<Op>::empty();
    let a = start_ops(s, c);
    let m = mixer_ops(s, x, d, near, far, stash);
    assert(graph::makes(a, h0, pr, half(false, Part::In)) && graph::after(e, 0, h0) == h0) by {
        reveal_with_fuel(graph::sound, 3);
        reveal_with_fuel(graph::after, 3);
        reveal_with_fuel(graph::card_after, 3);
    }
    graph::lemma_step(e, a, h0, pr);
    lemma_mixer(s, x, d, near, far, stash, graph::after(e + a, 0, h0));
    graph::lemma_step(e + a, m, h0, pr);
    let h = graph::after(e + a + m, 0, h0);
    assert(h.contains(Buf::Cur)) by {
        graph::lemma_grows(e + a + m, 0, h0, Buf::Cur);
    }
    assert(graph::makes(close_ops(s), h, pr, Buf::AfterAttn) && graph::makes(
        close_ops(s),
        h,
        pr,
        half(false, Part::In),
    )) by {
        reveal_with_fuel(graph::sound, 3);
        reveal_with_fuel(graph::after, 3);
        reveal_with_fuel(graph::card_after, 3);
    }
    graph::lemma_step(e + a + m, close_ops(s), h0, pr);
}

proof fn lemma_resident(s: &Shape, far: bool, w: u32, have: Set<Buf>, card: Place)
    requires
        have.contains(half(far, Part::Blocks)),
    ensures
        graph::makes(resident_ops(s, far, w), have, card, half(far, Part::FfnOut)),
{
    reveal_with_fuel(graph::sound, 6);
    reveal_with_fuel(graph::after, 6);
    reveal_with_fuel(graph::card_after, 6);
}

proof fn lemma_stream(b: Buf, have: Set<Buf>, card: Place)
    requires
        have.contains(Buf::AfterAttn),
        have.contains(b),
    ensures
        graph::makes(seq![stream_op(b)], have, card, Buf::Cur),
{
    reveal_with_fuel(graph::sound, 2);
    reveal_with_fuel(graph::after, 2);
    reveal_with_fuel(graph::card_after, 2);
}

proof fn lemma_dense(s: &Shape, w: u32, have: Set<Buf>)
    requires
        have.contains(half(false, Part::In)),
        have.contains(Buf::AfterAttn),
    ensures
        graph::makes(
            seq![quant_in(s, false)] + resident_ops(s, false, w) + seq![
                stream_op(half(false, Part::FfnOut)),
            ],
            have,
            Place::Primary,
            Buf::Cur,
        ),
{
    let pr = Place::Primary;
    let q = seq![quant_in(s, false)];
    let r = resident_ops(s, false, w);
    let out = half(false, Part::FfnOut);
    assert(graph::makes(q, have, pr, half(false, Part::Blocks))) by {
        reveal_with_fuel(graph::sound, 2);
        reveal_with_fuel(graph::after, 2);
        reveal_with_fuel(graph::card_after, 2);
    }
    lemma_resident(s, false, w, graph::after(q, 0, have), pr);
    graph::lemma_step(q, r, have, pr);
    graph::lemma_grows(q + r, 0, have, Buf::AfterAttn);
    lemma_stream(out, graph::after(q + r, 0, have), pr);
    graph::lemma_step(q + r, seq![stream_op(out)], have, pr);
}

proof fn lemma_blocks_out(s: &Shape, have: Set<Buf>)
    requires
        have.contains(half(false, Part::In)),
    ensures
        graph::sound(blocks_out_ops(s), 0, have),
        graph::card_after(blocks_out_ops(s), 0, Place::Primary) == Place::Second,
        graph::after(blocks_out_ops(s), 0, have).contains(half(false, Part::Blocks)),
        graph::after(blocks_out_ops(s), 0, have).contains(half(true, Part::Blocks)),
{
    reveal_with_fuel(graph::sound, 5);
    reveal_with_fuel(graph::after, 5);
    reveal_with_fuel(graph::card_after, 5);
}

proof fn lemma_halved_ffn(s: &Shape, w: u32, have: Set<Buf>)
    requires
        have.contains(half(false, Part::In)),
        have.contains(Buf::AfterAttn),
    ensures
        graph::makes(ffn_half_ops(s, HybridFfn::Halved, w), have, Place::Primary, Buf::Cur),
{
    let pr = Place::Primary;
    let out = half(false, Part::FfnOut);
    let back = half(true, Part::FfnOut);
    let a = blocks_out_ops(s);
    let b = resident_ops(s, true, w);
    let c = return_ops(back);
    let d = resident_ops(s, false, w);
    let e = join_ops(out);
    lemma_blocks_out(s, have);
    lemma_resident(s, true, w, graph::after(a, 0, have), Place::Second);
    graph::lemma_step(a, b, have, pr);
    lemma_return(back, out, graph::after(a + b, 0, have));
    graph::lemma_step(a + b, c, have, pr);
    lemma_resident(s, false, w, graph::after(a + b + c, 0, have), pr);
    graph::lemma_step(a + b + c, d, have, pr);
    lemma_return(back, out, graph::after(a + b + c + d, 0, have));
    graph::lemma_step(a + b + c + d, e, have, pr);
    graph::lemma_grows(a + b + c + d + e, 0, have, Buf::AfterAttn);
    lemma_stream(out, graph::after(a + b + c + d + e, 0, have), pr);
    graph::lemma_step(a + b + c + d + e, seq![stream_op(out)], have, pr);
}

proof fn lemma_hybrid_router(s: &Shape, shared: bool, have: Set<Buf>, card: Place)
    requires
        have.contains(half(false, Part::In)),
    ensures
        graph::makes(hybrid_router_ops(s, shared), have, card, half(false, Part::Blocks)),
        graph::makes(hybrid_router_ops(s, shared), have, card, Buf::Picks),
        graph::makes(hybrid_router_ops(s, shared), have, card, Buf::Weights),
        graph::makes(hybrid_router_ops(s, shared), have, card, Buf::SharedOut),
{
    reveal_with_fuel(graph::sound, 10);
    reveal_with_fuel(graph::after, 10);
    reveal_with_fuel(graph::card_after, 10);
}

/// What a mixing half leaves for the feed-forward.
pub open spec fn hybrid_inputs() -> Set<Buf> {
    set![half(false, Part::In), Buf::AfterAttn]
}

/// The feed-forward half of a hybrid layer reads nothing before it is
/// written, ends on the first card, and writes the stream.
pub proof fn ffn_half_is_sound(s: &Shape, f: HybridFfn, half_width: u32)
    ensures
        graph::runs(ffn_half_ops(s, f, half_width), hybrid_inputs(), Place::Primary),
        graph::after(ffn_half_ops(s, f, half_width), 0, hybrid_inputs()).contains(Buf::Cur),
{
    let h0 = hybrid_inputs();
    let pr = Place::Primary;
    match f {
        HybridFfn::Dense => {
            lemma_dense(s, s.n_ff_exp, h0);
        },
        HybridFfn::Halved => {
            lemma_halved_ffn(s, half_width, h0);
        },
        HybridFfn::Experts { shared } => {
            let a = hybrid_router_ops(s, shared);
            let b = hybrid_experts_ops();
            lemma_hybrid_router(s, shared, h0, pr);
            let h = graph::after(a, 0, h0);
            graph::lemma_grows(a, 0, h0, Buf::AfterAttn);
            assert(graph::makes(b, h, pr, Buf::Cur)) by {
                reveal_with_fuel(graph::sound, 4);
                reveal_with_fuel(graph::after, 4);
                reveal_with_fuel(graph::card_after, 4);
            }
            graph::lemma_step(a, b, h0, pr);
        },
    }
}

} // verus!
