//! What the launches of a hybrid layer compute, over symbolic rows: the
//! gated delta rule or gated attention, on one card or on two, and the
//! feed-forward behind it.

use vstd::prelude::*;

use crate::dataflow;
use crate::dataflow::{Cell, How, Mem, Val};
use crate::dflash::Capture;
use crate::graph;
use crate::graph::{Buf, Op, Part, Place, Weight, Width};
use crate::hybrid::{GdnDims, HybridFfn, Mixer};
use crate::hybrid_graph;
use crate::hybrid_graph::Mats;
use crate::shape::Shape;

verus! {

/// The card that holds a half.
pub open spec fn card(far: bool) -> Place {
    if far {
        Place::Second
    } else {
        Place::Primary
    }
}

/// Rows as a weight reads them: plain, or in quantized blocks.
pub open spec fn as_read(kq: bool, width: Width, x: Val) -> Val {
    if kq {
        dataflow::packed(width, x)
    } else {
        x
    }
}

/// A coefficient of the delta rule from the raw products of the input.
pub open spec fn coefficient(s: &Shape, far: bool, d: GdnDims, second: bool, x: Val) -> Val {
    let how = How::Rows { from: s.n_embd, to: d.v_heads, rows: 1 };
    Val::Coeff {
        second,
        decay: Box::new(dataflow::applied(card(far), Weight::Decay, how, x)),
        raw: Box::new(dataflow::applied(card(far), Weight::Beta, how, x)),
    }
}

/// The rows that the delta rule's convolution reads.
pub open spec fn delta_rows(s: &Shape, far: bool, d: GdnDims, mats: Mats, x: Val) -> Val {
    dataflow::times(
        card(far),
        Weight::Qkv,
        dataflow::rows_of(s.n_embd),
        dataflow::rows_of(d.conv),
        as_read(mats.first, dataflow::rows_of(s.n_embd), x),
    )
}

/// The delta rule over the convolved queries, keys and values of the input,
/// queries and keys of unit length.
pub open spec fn delta_rule(
    s: &Shape,
    far: bool,
    d: GdnDims,
    lone: bool,
    mats: Mats,
    x: Val,
) -> Val {
    let keys = Width { n: d.k_heads, each: s.ssm_state };
    let conv = Box::new(
        Val::Windowed { far, x: Box::new(delta_rows(s, far, d, mats, x)) },
    );
    let q = Box::new(
        Val::UnitLength { width: keys, x: Box::new(Val::Third { which: 0, x: conv }) },
    );
    let k = Box::new(
        Val::UnitLength { width: keys, x: Box::new(Val::Third { which: 1, x: conv }) },
    );
    let v = Box::new(Val::Third { which: 2, x: conv });
    if lone {
        Val::RuledPair {
            far,
            q,
            k,
            v,
            pair: Box::new(
                Val::CoeffPair {
                    x: Box::new(
                        dataflow::applied(
                            card(far),
                            Weight::Coeffs,
                            How::Rows { from: s.n_embd, to: (2 * d.v_heads) as u32, rows: 1 },
                            x,
                        ),
                    ),
                },
            ),
        }
    } else {
        Val::Ruled {
            far,
            q,
            k,
            v,
            decay: Box::new(coefficient(s, far, d, false, x)),
            beta: Box::new(coefficient(s, far, d, true, x)),
        }
    }
}

/// A card's gated delta rule: its normed output, gated by another product of
/// the input, and projected back.
pub open spec fn delta_out(
    s: &Shape,
    far: bool,
    d: GdnDims,
    lone: bool,
    mats: Mats,
    x: Val,
) -> Val {
    let z = dataflow::times(
        card(far),
        Weight::Z,
        dataflow::rows_of(s.n_embd),
        dataflow::rows_of(d.value),
        as_read(mats.second, dataflow::rows_of(s.n_embd), x),
    );
    let normed = dataflow::applied(
        card(far),
        Weight::SsmNorm,
        How::HeadNorm(Width { n: d.v_heads, each: s.ssm_state }),
        delta_rule(s, far, d, lone, mats, x),
    );
    dataflow::times(
        card(far),
        Weight::SsmOut,
        dataflow::rows_of(d.value),
        dataflow::rows_of(s.n_embd),
        as_read(mats.out, dataflow::rows_of(d.value), dataflow::gated(dataflow::rows_of(d.value), z, normed)),
    )
}

/// Queries and their gates, in one product.
pub open spec fn queries_and_gates(s: &Shape, far: bool, nh: u32, mats: Mats, x: Val) -> Val {
    dataflow::times(
        card(far),
        Weight::MixQ,
        dataflow::rows_of(s.n_embd),
        Width { n: nh, each: (2 * s.head_dim) as u32 },
        as_read(mats.first, dataflow::rows_of(s.n_embd), x),
    )
}

/// Normed and rotated heads, under the fixed rotation of packed caches where
/// there is one.
pub open spec fn heads_of(
    s: &Shape,
    far: bool,
    n: u32,
    norm: Weight,
    on_card: bool,
    rotate: bool,
    x: Val,
) -> Val {
    let w = Width { n, each: s.head_dim };
    let turned = Val::TurnedHalf {
        width: w,
        on_card,
        x: Box::new(dataflow::applied(card(far), norm, How::HeadNorm(w), x)),
    };
    dataflow::maybe(
        rotate,
        card(far),
        Weight::Rotate,
        How::Rows { from: s.head_dim, to: s.head_dim, rows: n },
        turned,
    )
}

/// The keys that a card's cache gains.
pub open spec fn half_keys(
    s: &Shape,
    far: bool,
    nkv: u32,
    on_card: bool,
    rotate: bool,
    mats: Mats,
    x: Val,
) -> Val {
    let k = dataflow::times(
        card(far),
        Weight::MixK,
        dataflow::rows_of(s.n_embd),
        Width { n: nkv, each: s.head_dim },
        as_read(mats.second, dataflow::rows_of(s.n_embd), x),
    );
    Val::Cached {
        on_card,
        x: Box::new(heads_of(s, far, nkv, Weight::KNorm, on_card, rotate, k)),
    }
}

/// The values that a card's cache gains.
pub open spec fn half_values(s: &Shape, far: bool, nkv: u32, on_card: bool, mats: Mats, x: Val) -> Val {
    Val::Cached {
        on_card,
        x: Box::new(
            dataflow::times(
                card(far),
                Weight::MixV,
                dataflow::rows_of(s.n_embd),
                Width { n: nkv, each: s.head_dim },
                as_read(mats.third, dataflow::rows_of(s.n_embd), x),
            ),
        ),
    }
}

/// A card's gated attention: its heads' output, gated, and projected back.
pub open spec fn attn_out(
    s: &Shape,
    far: bool,
    nh: u32,
    nkv: u32,
    on_card: bool,
    rotate: bool,
    mats: Mats,
    x: Val,
) -> Val {
    let w = Width { n: nh, each: s.head_dim };
    let qg = Box::new(queries_and_gates(s, far, nh, mats, x));
    let heads = Val::AttendedHalf {
        far,
        on_card,
        q: Box::new(
            heads_of(
                s,
                far,
                nh,
                Weight::QNorm,
                on_card,
                rotate,
                Val::Split { second: false, x: qg },
            ),
        ),
        k: Box::new(half_keys(s, far, nkv, on_card, rotate, mats, x)),
        v: Box::new(half_values(s, far, nkv, on_card, mats, x)),
    };
    let gated = Val::RowGated {
        x: Box::new(heads),
        gate: Box::new(Val::Split { second: true, x: qg }),
    };
    dataflow::times(
        card(far),
        Weight::MixOut,
        w,
        dataflow::rows_of(s.n_embd),
        as_read(mats.out, w, gated),
    )
}

/// What a card's mixer makes of its input.
pub open spec fn mixed(s: &Shape, k: Mixer, d: GdnDims, far: bool, mats: Mats, x: Val) -> Val {
    match k {
        Mixer::Gdn { packed, .. } => delta_out(s, far, d, packed, mats, x),
        Mixer::Attn { n_head, n_head_kv, device_pos, rotate, .. } => attn_out(
            s,
            far,
            n_head,
            n_head_kv,
            device_pos,
            rotate,
            mats,
            x,
        ),
    }
}

/// What only the mixer of one card touches.
pub open spec fn own(far: bool, c: Cell) -> bool {
    match c {
        Cell::At(Buf::Half(h, p)) => h == far && p != Part::In && p != Part::Blocks,
        Cell::HalfKeys(h) => h == far,
        Cell::HalfValues(h) => h == far,
        _ => false,
    }
}

/// Nothing but that differs, and what a replay needs.
pub open spec fn same_but_own(far: bool, a: Mem, b: Mem) -> bool {
    forall|c: Cell| !own(far, c) && c != Cell::Stash ==> #[trigger] a.cells[c] == b.cells[c]
}

/// A card is ready to mix `x`: it is current, its input is `x`, and its
/// blocks hold `x` where some weight reads them.
pub open spec fn ready(s: &Shape, far: bool, mats: Mats, x: Val, m: Mem) -> bool {
    &&& m.card == card(far)
    &&& m.at(dataflow::on(far, Part::In)) == x
    &&& mats.first || mats.second || mats.third ==> m.at(dataflow::on(far, Part::Blocks)) == dataflow::packed(
        dataflow::rows_of(s.n_embd),
        x,
    )
}

proof fn lemma_gdn_rows(s: &Shape, far: bool, d: GdnDims, lone: bool, mats: Mats, x: Val, m: Mem)
    requires
        ready(s, far, mats, x, m),
    ensures
        ({
            let r = dataflow::run(hybrid_graph::gdn_rows_ops(s, far, d, lone, mats), 0, m);
            &&& r.card == m.card
            &&& r.at(dataflow::on(far, Part::Qkv)) == delta_rows(s, far, d, mats, x)
            &&& r.at(dataflow::on(far, Part::Z)) == dataflow::times(card(far), Weight::Z, dataflow::rows_of(s.n_embd), dataflow::rows_of(d.value), as_read(mats.second, dataflow::rows_of(s.n_embd), x))
            &&& lone ==> r.at(dataflow::on(far, Part::Packed)) == (Val::CoeffPair { x: Box::new(dataflow::applied(card(far), Weight::Coeffs, How::Rows { from: s.n_embd, to: (2 * d.v_heads) as u32, rows: 1 }, x)) })
            &&& !lone ==> r.at(dataflow::on(far, Part::Decay)) == coefficient(s, far, d, false, x) && r.at(dataflow::on(far, Part::Beta)) == coefficient(s, far, d, true, x)
            &&& r.cells[Cell::Stash] == m.cells[Cell::Stash]
            &&& same_but_own(far, r, m)
        }),
{
    if lone {
        let ops = hybrid_graph::gdn_rows_ops(s, far, d, lone, mats);
        let m1 = m.made(dataflow::on(far, Part::Qkv), Weight::Qkv, How::Product { inner: dataflow::rows_of(s.n_embd), outer: dataflow::rows_of(d.conv) }, if mats.first { dataflow::on(far, Part::Blocks) } else { dataflow::on(far, Part::In) });
        assert(dataflow::step(m, ops[0]) == m1) by {
            reveal(dataflow::step);
        }
        let m2 = m1.made(dataflow::on(far, Part::Z), Weight::Z, How::Product { inner: dataflow::rows_of(s.n_embd), outer: dataflow::rows_of(d.value) }, if mats.second { dataflow::on(far, Part::Blocks) } else { dataflow::on(far, Part::In) });
        assert(dataflow::step(m1, ops[1]) == m2) by {
            reveal(dataflow::step);
        }
        let m3 = m2.made(dataflow::on(far, Part::Packed), Weight::Coeffs, How::Rows { from: s.n_embd, to: (2 * d.v_heads) as u32, rows: 1 }, dataflow::on(far, Part::In));
        assert(dataflow::step(m2, ops[2]) == m3) by {
            reveal(dataflow::step);
        }
        let m4 = m3.put(dataflow::on(far, Part::Packed), Val::CoeffPair { x: Box::new(m3.at(dataflow::on(far, Part::Packed))) });
        assert(dataflow::step(m3, ops[3]) == m4) by {
            reveal(dataflow::step);
        }
        assert(dataflow::run(ops, 0, m) == m4) by {
            reveal_with_fuel(dataflow::run, 5);
        }
    } else {
        let ops = hybrid_graph::gdn_rows_ops(s, far, d, lone, mats);
        let m1 = m.made(dataflow::on(far, Part::Qkv), Weight::Qkv, How::Product { inner: dataflow::rows_of(s.n_embd), outer: dataflow::rows_of(d.conv) }, if mats.first { dataflow::on(far, Part::Blocks) } else { dataflow::on(far, Part::In) });
        assert(dataflow::step(m, ops[0]) == m1) by {
            reveal(dataflow::step);
        }
        let m2 = m1.made(dataflow::on(far, Part::Z), Weight::Z, How::Product { inner: dataflow::rows_of(s.n_embd), outer: dataflow::rows_of(d.value) }, if mats.second { dataflow::on(far, Part::Blocks) } else { dataflow::on(far, Part::In) });
        assert(dataflow::step(m1, ops[1]) == m2) by {
            reveal(dataflow::step);
        }
        let m3 = m2.made(dataflow::on(far, Part::Decay), Weight::Decay, How::Rows { from: s.n_embd, to: d.v_heads, rows: 1 }, dataflow::on(far, Part::In));
        assert(dataflow::step(m2, ops[2]) == m3) by {
            reveal(dataflow::step);
        }
        let m4 = m3.made(dataflow::on(far, Part::Beta), Weight::Beta, How::Rows { from: s.n_embd, to: d.v_heads, rows: 1 }, dataflow::on(far, Part::In));
        assert(dataflow::step(m3, ops[3]) == m4) by {
            reveal(dataflow::step);
        }
        let m5 = m4.put(dataflow::on(far, Part::Decay), Val::Coeff { second: false, decay: Box::new(m4.at(dataflow::on(far, Part::Decay))), raw: Box::new(m4.at(dataflow::on(far, Part::Beta))) }).put(dataflow::on(far, Part::Beta), Val::Coeff { second: true, decay: Box::new(m4.at(dataflow::on(far, Part::Decay))), raw: Box::new(m4.at(dataflow::on(far, Part::Beta))) });
        assert(dataflow::step(m4, ops[4]) == m5) by {
            reveal(dataflow::step);
        }
        assert(dataflow::run(ops, 0, m) == m5) by {
            reveal_with_fuel(dataflow::run, 6);
        }
    }
}

proof fn lemma_gdn_rule(s: &Shape, far: bool, d: GdnDims, lone: bool, mats: Mats, x: Val, m: Mem)
    requires
        m.card == card(far),
        m.at(dataflow::on(far, Part::Qkv)) == delta_rows(s, far, d, mats, x),
        lone ==> m.at(dataflow::on(far, Part::Packed)) == (Val::CoeffPair { x: Box::new(dataflow::applied(card(far), Weight::Coeffs, How::Rows { from: s.n_embd, to: (2 * d.v_heads) as u32, rows: 1 }, x)) }),
        !lone ==> m.at(dataflow::on(far, Part::Decay)) == coefficient(s, far, d, false, x) && m.at(dataflow::on(far, Part::Beta)) == coefficient(s, far, d, true, x),
    ensures
        ({
            let r = dataflow::run(hybrid_graph::gdn_rule_ops(s, far, d, lone), 0, m);
            &&& r.card == m.card
            &&& r.at(dataflow::on(far, Part::Mixed)) == dataflow::gated(dataflow::rows_of(d.value), m.at(dataflow::on(far, Part::Z)), dataflow::applied(card(far), Weight::SsmNorm, How::HeadNorm(Width { n: d.v_heads, each: s.ssm_state }), delta_rule(s, far, d, lone, mats, x)))
            &&& r.cells[Cell::Stash] == m.cells[Cell::Stash]
            &&& same_but_own(far, r, m)
        }),
{
    if lone {
        let ops = hybrid_graph::gdn_rule_ops(s, far, d, lone);
        let m1 = m.put(dataflow::on(far, Part::ConvOut), Val::Windowed { far, x: Box::new(m.at(dataflow::on(far, Part::Qkv))) });
        assert(dataflow::step(m, ops[0]) == m1) by {
            reveal(dataflow::step);
        }
        let m2 = m1.put(dataflow::on(far, Part::Gq), Val::Third { which: 0, x: Box::new(m1.at(dataflow::on(far, Part::ConvOut))) }).put(dataflow::on(far, Part::Gk), Val::Third { which: 1, x: Box::new(m1.at(dataflow::on(far, Part::ConvOut))) }).put(dataflow::on(far, Part::Gv), Val::Third { which: 2, x: Box::new(m1.at(dataflow::on(far, Part::ConvOut))) });
        assert(dataflow::step(m1, ops[1]) == m2) by {
            reveal(dataflow::step);
        }
        let m3 = m2.put(dataflow::on(far, Part::Gq), Val::UnitLength { width: Width { n: d.k_heads, each: s.ssm_state }, x: Box::new(m2.at(dataflow::on(far, Part::Gq))) });
        assert(dataflow::step(m2, ops[2]) == m3) by {
            reveal(dataflow::step);
        }
        let m4 = m3.put(dataflow::on(far, Part::Gk), Val::UnitLength { width: Width { n: d.k_heads, each: s.ssm_state }, x: Box::new(m3.at(dataflow::on(far, Part::Gk))) });
        assert(dataflow::step(m3, ops[3]) == m4) by {
            reveal(dataflow::step);
        }
        let m5 = m4.put(dataflow::on(far, Part::Delta), Val::RuledPair { far, q: Box::new(m4.at(dataflow::on(far, Part::Gq))), k: Box::new(m4.at(dataflow::on(far, Part::Gk))), v: Box::new(m4.at(dataflow::on(far, Part::Gv))), pair: Box::new(m4.at(dataflow::on(far, Part::Packed))) });
        assert(dataflow::step(m4, ops[4]) == m5) by {
            reveal(dataflow::step);
        }
        let m6 = m5.made(dataflow::on(far, Part::Delta), Weight::SsmNorm, How::HeadNorm(Width { n: d.v_heads, each: s.ssm_state }), dataflow::on(far, Part::Delta));
        assert(dataflow::step(m5, ops[5]) == m6) by {
            reveal(dataflow::step);
        }
        let m7 = m6.put(dataflow::on(far, Part::Mixed), dataflow::gated(dataflow::rows_of(d.value), m6.at(dataflow::on(far, Part::Z)), m6.at(dataflow::on(far, Part::Delta))));
        assert(dataflow::step(m6, ops[6]) == m7) by {
            reveal(dataflow::step);
        }
        assert(dataflow::run(ops, 0, m) == m7) by {
            reveal_with_fuel(dataflow::run, 8);
        }
    } else {
        let ops = hybrid_graph::gdn_rule_ops(s, far, d, lone);
        let m1 = m.put(dataflow::on(far, Part::ConvOut), Val::Windowed { far, x: Box::new(m.at(dataflow::on(far, Part::Qkv))) });
        assert(dataflow::step(m, ops[0]) == m1) by {
            reveal(dataflow::step);
        }
        let m2 = m1.put(dataflow::on(far, Part::Gq), Val::Third { which: 0, x: Box::new(m1.at(dataflow::on(far, Part::ConvOut))) }).put(dataflow::on(far, Part::Gk), Val::Third { which: 1, x: Box::new(m1.at(dataflow::on(far, Part::ConvOut))) }).put(dataflow::on(far, Part::Gv), Val::Third { which: 2, x: Box::new(m1.at(dataflow::on(far, Part::ConvOut))) });
        assert(dataflow::step(m1, ops[1]) == m2) by {
            reveal(dataflow::step);
        }
        let m3 = m2.put(dataflow::on(far, Part::Gq), Val::UnitLength { width: Width { n: d.k_heads, each: s.ssm_state }, x: Box::new(m2.at(dataflow::on(far, Part::Gq))) });
        assert(dataflow::step(m2, ops[2]) == m3) by {
            reveal(dataflow::step);
        }
        let m4 = m3.put(dataflow::on(far, Part::Gk), Val::UnitLength { width: Width { n: d.k_heads, each: s.ssm_state }, x: Box::new(m3.at(dataflow::on(far, Part::Gk))) });
        assert(dataflow::step(m3, ops[3]) == m4) by {
            reveal(dataflow::step);
        }
        let m5 = m4.put(dataflow::on(far, Part::Delta), Val::Ruled { far, q: Box::new(m4.at(dataflow::on(far, Part::Gq))), k: Box::new(m4.at(dataflow::on(far, Part::Gk))), v: Box::new(m4.at(dataflow::on(far, Part::Gv))), decay: Box::new(m4.at(dataflow::on(far, Part::Decay))), beta: Box::new(m4.at(dataflow::on(far, Part::Beta))) });
        assert(dataflow::step(m4, ops[4]) == m5) by {
            reveal(dataflow::step);
        }
        let m6 = m5.made(dataflow::on(far, Part::Delta), Weight::SsmNorm, How::HeadNorm(Width { n: d.v_heads, each: s.ssm_state }), dataflow::on(far, Part::Delta));
        assert(dataflow::step(m5, ops[5]) == m6) by {
            reveal(dataflow::step);
        }
        let m7 = m6.put(dataflow::on(far, Part::Mixed), dataflow::gated(dataflow::rows_of(d.value), m6.at(dataflow::on(far, Part::Z)), m6.at(dataflow::on(far, Part::Delta))));
        assert(dataflow::step(m6, ops[6]) == m7) by {
            reveal(dataflow::step);
        }
        assert(dataflow::run(ops, 0, m) == m7) by {
            reveal_with_fuel(dataflow::run, 8);
        }
    }
}

proof fn lemma_out(s: &Shape, far: bool, src: Part, w: Weight, kq: bool, inner: Width, m: Mem)
    requires
        m.card == card(far),
        src == Part::Mixed || src == Part::Heads,
    ensures
        ({
            let r = dataflow::run(hybrid_graph::out_ops(s, far, src, w, kq, inner), 0, m);
            &&& r.card == m.card
            &&& r.at(dataflow::on(far, Part::Out)) == dataflow::times(card(far), w, inner, dataflow::rows_of(s.n_embd), as_read(kq, inner, m.at(dataflow::on(far, src))))
            &&& r.cells[Cell::Stash] == m.cells[Cell::Stash]
            &&& r.cells[Cell::HalfKeys(far)] == m.cells[Cell::HalfKeys(far)]
            &&& r.cells[Cell::HalfValues(far)] == m.cells[Cell::HalfValues(far)]
            &&& same_but_own(far, r, m)
        }),
{
    if kq {
        let ops = hybrid_graph::out_ops(s, far, src, w, kq, inner);
        let m1 = m.put(dataflow::on(far, Part::MidBlocks), dataflow::packed(inner, m.at(dataflow::on(far, src))));
        assert(dataflow::step(m, ops[0]) == m1) by {
            reveal(dataflow::step);
        }
        let m2 = m1.made(dataflow::on(far, Part::Out), w, How::Product { inner, outer: dataflow::rows_of(s.n_embd) }, if kq { dataflow::on(far, Part::MidBlocks) } else { dataflow::on(far, src) });
        assert(dataflow::step(m1, ops[1]) == m2) by {
            reveal(dataflow::step);
        }
        assert(dataflow::run(ops, 0, m) == m2) by {
            reveal_with_fuel(dataflow::run, 3);
        }
    } else {
        let ops = hybrid_graph::out_ops(s, far, src, w, kq, inner);
        let m1 = m.made(dataflow::on(far, Part::Out), w, How::Product { inner, outer: dataflow::rows_of(s.n_embd) }, if kq { dataflow::on(far, Part::MidBlocks) } else { dataflow::on(far, src) });
        assert(dataflow::step(m, ops[0]) == m1) by {
            reveal(dataflow::step);
        }
        assert(dataflow::run(ops, 0, m) == m1) by {
            reveal_with_fuel(dataflow::run, 2);
        }
    }
}

proof fn lemma_stash(on_: bool, m: Mem)
    ensures
        ({
            let r = dataflow::run(hybrid_graph::stash_ops(on_), 0, m);
            &&& r.card == m.card
            &&& r.cells[Cell::Stash] == (if on_ {
                Val::Stashed {
                    qkv: Box::new(m.at(dataflow::on(false, Part::Qkv))),
                    decay: Box::new(m.at(dataflow::on(false, Part::Decay))),
                    beta: Box::new(m.at(dataflow::on(false, Part::Beta))),
                }
            } else {
                m.cells[Cell::Stash]
            })
            &&& forall|c: Cell| c != Cell::Stash ==> #[trigger] r.cells[c] == m.cells[c]
        }),
{
    reveal(dataflow::step);
    reveal_with_fuel(dataflow::run, 2);
}

proof fn lemma_gdn(
    s: &Shape,
    far: bool,
    d: GdnDims,
    lone: bool,
    mats: Mats,
    stash: bool,
    x: Val,
    m: Mem,
)
    requires
        ready(s, far, mats, x, m),
    ensures
        ({
            let r = dataflow::run(hybrid_graph::gdn_ops(s, far, d, lone, mats, stash), 0, m);
            &&& r.card == m.card
            &&& r.at(dataflow::on(far, Part::Out)) == delta_out(s, far, d, lone, mats, x)
            &&& stash && !far && !lone ==> r.cells[Cell::Stash] == (Val::Stashed {
                qkv: Box::new(delta_rows(s, far, d, mats, x)),
                decay: Box::new(coefficient(s, far, d, false, x)),
                beta: Box::new(coefficient(s, far, d, true, x)),
            })
            &&& !stash ==> r.cells[Cell::Stash] == m.cells[Cell::Stash]
            &&& same_but_own(far, r, m)
        }),
{
    let a = hybrid_graph::gdn_rows_ops(s, far, d, lone, mats);
    let b = hybrid_graph::stash_ops(stash);
    let c = hybrid_graph::gdn_rule_ops(s, far, d, lone);
    let e = hybrid_graph::out_ops(
        s,
        far,
        Part::Mixed,
        Weight::SsmOut,
        mats.out,
        graph::flat(d.value),
    );
    dataflow::lists_run_in_order(a, b, m);
    dataflow::lists_run_in_order(a + b, c, m);
    dataflow::lists_run_in_order(a + b + c, e, m);
    let m1 = dataflow::run(a, 0, m);
    let m2 = dataflow::run(a + b, 0, m);
    let m3 = dataflow::run(a + b + c, 0, m);
    lemma_gdn_rows(s, far, d, lone, mats, x, m);
    lemma_stash(stash, m1);
    lemma_gdn_rule(s, far, d, lone, mats, x, m2);
    lemma_out(s, far, Part::Mixed, Weight::SsmOut, mats.out, dataflow::rows_of(d.value), m3);
    let r = dataflow::run(a + b + c + e, 0, m);
    assert forall|k: Cell| !own(far, k) && k != Cell::Stash implies #[trigger] r.cells[k]
        == m.cells[k] by {
        assert(r.cells[k] == m3.cells[k]);
        assert(m3.cells[k] == m2.cells[k]);
        assert(m2.cells[k] == m1.cells[k]);
        assert(m1.cells[k] == m.cells[k]);
    }
}

proof fn lemma_attn_rows(s: &Shape, far: bool, nh: u32, nkv: u32, on_card: bool, mats: Mats, x: Val, m: Mem)
    requires
        ready(s, far, mats, x, m),
    ensures
        ({
            let r = dataflow::run(hybrid_graph::attn_rows_ops(s, far, nh, nkv, on_card, mats), 0, m);
            &&& r.card == m.card
            &&& r.at(dataflow::on(far, Part::Q)) == heads_of(s, far, nh, Weight::QNorm, on_card, false, Val::Split { second: false, x: Box::new(queries_and_gates(s, far, nh, mats, x)) })
            &&& r.at(dataflow::on(far, Part::Gate)) == (Val::Split { second: true, x: Box::new(queries_and_gates(s, far, nh, mats, x)) })
            &&& r.at(dataflow::on(far, Part::K)) == heads_of(s, far, nkv, Weight::KNorm, on_card, false, dataflow::times(card(far), Weight::MixK, dataflow::rows_of(s.n_embd), Width { n: nkv, each: s.head_dim }, as_read(mats.second, dataflow::rows_of(s.n_embd), x)))
            &&& r.at(dataflow::on(far, Part::V)) == dataflow::times(card(far), Weight::MixV, dataflow::rows_of(s.n_embd), Width { n: nkv, each: s.head_dim }, as_read(mats.third, dataflow::rows_of(s.n_embd), x))
            &&& r.cells[Cell::Stash] == m.cells[Cell::Stash]
            &&& same_but_own(far, r, m)
        }),
{
    let ops = hybrid_graph::attn_rows_ops(s, far, nh, nkv, on_card, mats);
    let m1 = m.made(dataflow::on(far, Part::QueryGate), Weight::MixQ, How::Product { inner: dataflow::rows_of(s.n_embd), outer: Width { n: nh, each: (2 * s.head_dim) as u32 } }, if mats.first { dataflow::on(far, Part::Blocks) } else { dataflow::on(far, Part::In) });
    assert(dataflow::step(m, ops[0]) == m1) by {
        reveal(dataflow::step);
    }
    let m2 = m1.put(dataflow::on(far, Part::Q), Val::Split { second: false, x: Box::new(m1.at(dataflow::on(far, Part::QueryGate))) }).put(dataflow::on(far, Part::Gate), Val::Split { second: true, x: Box::new(m1.at(dataflow::on(far, Part::QueryGate))) });
    assert(dataflow::step(m1, ops[1]) == m2) by {
        reveal(dataflow::step);
    }
    let m3 = m2.made(dataflow::on(far, Part::K), Weight::MixK, How::Product { inner: dataflow::rows_of(s.n_embd), outer: Width { n: nkv, each: s.head_dim } }, if mats.second { dataflow::on(far, Part::Blocks) } else { dataflow::on(far, Part::In) });
    assert(dataflow::step(m2, ops[2]) == m3) by {
        reveal(dataflow::step);
    }
    let m4 = m3.made(dataflow::on(far, Part::V), Weight::MixV, How::Product { inner: dataflow::rows_of(s.n_embd), outer: Width { n: nkv, each: s.head_dim } }, if mats.third { dataflow::on(far, Part::Blocks) } else { dataflow::on(far, Part::In) });
    assert(dataflow::step(m3, ops[3]) == m4) by {
        reveal(dataflow::step);
    }
    let m5 = m4.made(dataflow::on(far, Part::Q), Weight::QNorm, How::HeadNorm(Width { n: nh, each: s.head_dim }), dataflow::on(far, Part::Q));
    assert(dataflow::step(m4, ops[4]) == m5) by {
        reveal(dataflow::step);
    }
    let m6 = m5.made(dataflow::on(far, Part::K), Weight::KNorm, How::HeadNorm(Width { n: nkv, each: s.head_dim }), dataflow::on(far, Part::K));
    assert(dataflow::step(m5, ops[5]) == m6) by {
        reveal(dataflow::step);
    }
    let m7 = m6.put(dataflow::on(far, Part::Q), Val::TurnedHalf { width: Width { n: nh, each: s.head_dim }, on_card, x: Box::new(m6.at(dataflow::on(far, Part::Q))) });
    assert(dataflow::step(m6, ops[6]) == m7) by {
        reveal(dataflow::step);
    }
    let m8 = m7.put(dataflow::on(far, Part::K), Val::TurnedHalf { width: Width { n: nkv, each: s.head_dim }, on_card, x: Box::new(m7.at(dataflow::on(far, Part::K))) });
    assert(dataflow::step(m7, ops[7]) == m8) by {
        reveal(dataflow::step);
    }
    assert(dataflow::run(ops, 0, m) == m8) by {
        reveal_with_fuel(dataflow::run, 9);
    }
}

proof fn lemma_turn(s: &Shape, far: bool, nh: u32, nkv: u32, rotate: bool, m: Mem)
    requires
        m.card == card(far),
    ensures
        ({
            let r = dataflow::run(hybrid_graph::turn_ops(s, far, nh, nkv, rotate), 0, m);
            &&& r.card == m.card
            &&& r.at(dataflow::on(far, if rotate { Part::RotK } else { Part::K })) == dataflow::maybe(rotate, card(far), Weight::Rotate, How::Rows { from: s.head_dim, to: s.head_dim, rows: nkv }, m.at(dataflow::on(far, Part::K)))
            &&& r.at(dataflow::on(far, if rotate { Part::RotQ } else { Part::Q })) == dataflow::maybe(rotate, card(far), Weight::Rotate, How::Rows { from: s.head_dim, to: s.head_dim, rows: nh }, m.at(dataflow::on(far, Part::Q)))
            &&& r.at(dataflow::on(far, Part::V)) == m.at(dataflow::on(far, Part::V))
            &&& r.at(dataflow::on(far, Part::Gate)) == m.at(dataflow::on(far, Part::Gate))
            &&& r.cells[Cell::Stash] == m.cells[Cell::Stash]
            &&& same_but_own(far, r, m)
        }),
{
    if rotate {
        let ops = hybrid_graph::turn_ops(s, far, nh, nkv, rotate);
        let m1 = m.made(dataflow::on(far, Part::RotK), Weight::Rotate, How::Rows { from: s.head_dim, to: s.head_dim, rows: nkv }, dataflow::on(far, Part::K));
        assert(dataflow::step(m, ops[0]) == m1) by {
            reveal(dataflow::step);
        }
        let m2 = m1.made(dataflow::on(far, Part::RotQ), Weight::Rotate, How::Rows { from: s.head_dim, to: s.head_dim, rows: nh }, dataflow::on(far, Part::Q));
        assert(dataflow::step(m1, ops[1]) == m2) by {
            reveal(dataflow::step);
        }
        assert(dataflow::run(ops, 0, m) == m2) by {
            reveal_with_fuel(dataflow::run, 3);
        }
    } else {
        let ops = hybrid_graph::turn_ops(s, far, nh, nkv, rotate);
        assert(dataflow::run(ops, 0, m) == m) by {
            reveal_with_fuel(dataflow::run, 1);
        }
    }
}

proof fn lemma_half_attend(far: bool, on_card: bool, rotate: bool, m: Mem)
    ensures
        ({
            let r = dataflow::run(hybrid_graph::attend_ops(far, on_card, rotate), 0, m);
            &&& r.card == m.card
            &&& r.cells[Cell::HalfKeys(far)] == (Val::Cached { on_card, x: Box::new(m.at(dataflow::on(far, if rotate { Part::RotK } else { Part::K }))) })
            &&& r.cells[Cell::HalfValues(far)] == (Val::Cached { on_card, x: Box::new(m.at(dataflow::on(far, Part::V))) })
            &&& r.at(dataflow::on(far, Part::Heads)) == (Val::RowGated { x: Box::new(Val::AttendedHalf { far, on_card, q: Box::new(m.at(dataflow::on(far, if rotate { Part::RotQ } else { Part::Q }))), k: Box::new(r.cells[Cell::HalfKeys(far)]), v: Box::new(r.cells[Cell::HalfValues(far)]) }), gate: Box::new(m.at(dataflow::on(far, Part::Gate))) })
            &&& r.cells[Cell::Stash] == m.cells[Cell::Stash]
            &&& same_but_own(far, r, m)
        }),
{
    let k = dataflow::on(far, if rotate { Part::RotK } else { Part::K });
    let q = dataflow::on(far, if rotate { Part::RotQ } else { Part::Q });
    let ops = hybrid_graph::attend_ops(far, on_card, rotate);
    let m1 = m.keep(Cell::HalfKeys(far), Val::Cached { on_card, x: Box::new(m.at(k)) });
    assert(dataflow::step(m, ops[0]) == m1) by {
        reveal(dataflow::step);
    }
    let m2 = m1.keep(Cell::HalfValues(far), Val::Cached { on_card, x: Box::new(m1.at(dataflow::on(far, Part::V))) });
    assert(dataflow::step(m1, ops[1]) == m2) by {
        reveal(dataflow::step);
    }
    let m3 = m2.put(dataflow::on(far, Part::Heads), Val::AttendedHalf { far, on_card, q: Box::new(m2.at(q)), k: Box::new(m2.cells[Cell::HalfKeys(far)]), v: Box::new(m2.cells[Cell::HalfValues(far)]) });
    assert(dataflow::step(m2, ops[2]) == m3) by {
        reveal(dataflow::step);
    }
    let m4 = m3.put(dataflow::on(far, Part::Heads), Val::RowGated { x: Box::new(m3.at(dataflow::on(far, Part::Heads))), gate: Box::new(m3.at(dataflow::on(far, Part::Gate))) });
    assert(dataflow::step(m3, ops[3]) == m4) by {
        reveal(dataflow::step);
    }
    assert(dataflow::run(ops, 0, m) == m4) by {
        reveal_with_fuel(dataflow::run, 5);
    }
}

proof fn lemma_attn(
    s: &Shape,
    far: bool,
    nh: u32,
    nkv: u32,
    on_card: bool,
    rotate: bool,
    mats: Mats,
    x: Val,
    m: Mem,
)
    requires
        ready(s, far, mats, x, m),
    ensures
        ({
            let r = dataflow::run(hybrid_graph::attn_ops(s, far, nh, nkv, on_card, rotate, mats), 0, m);
            &&& r.card == m.card
            &&& r.at(dataflow::on(far, Part::Out)) == attn_out(s, far, nh, nkv, on_card, rotate, mats, x)
            &&& r.cells[Cell::HalfKeys(far)] == half_keys(s, far, nkv, on_card, rotate, mats, x)
            &&& r.cells[Cell::HalfValues(far)] == half_values(s, far, nkv, on_card, mats, x)
            &&& r.cells[Cell::Stash] == m.cells[Cell::Stash]
            &&& same_but_own(far, r, m)
        }),
{
    let a = hybrid_graph::attn_rows_ops(s, far, nh, nkv, on_card, mats);
    let b = hybrid_graph::turn_ops(s, far, nh, nkv, rotate);
    let c = hybrid_graph::attend_ops(far, on_card, rotate);
    let w = Width { n: nh, each: s.head_dim };
    let e = hybrid_graph::out_ops(s, far, Part::Heads, Weight::MixOut, mats.out, w);
    dataflow::lists_run_in_order(a, b, m);
    dataflow::lists_run_in_order(a + b, c, m);
    dataflow::lists_run_in_order(a + b + c, e, m);
    let m1 = dataflow::run(a, 0, m);
    let m2 = dataflow::run(a + b, 0, m);
    let m3 = dataflow::run(a + b + c, 0, m);
    lemma_attn_rows(s, far, nh, nkv, on_card, mats, x, m);
    lemma_turn(s, far, nh, nkv, rotate, m1);
    lemma_half_attend(far, on_card, rotate, m2);
    lemma_out(s, far, Part::Heads, Weight::MixOut, mats.out, w, m3);
    let r = dataflow::run(a + b + c + e, 0, m);
    assert forall|k: Cell| !own(far, k) && k != Cell::Stash implies #[trigger] r.cells[k]
        == m.cells[k] by {
        assert(r.cells[k] == m3.cells[k]);
        assert(m3.cells[k] == m2.cells[k]);
        assert(m2.cells[k] == m1.cells[k]);
        assert(m1.cells[k] == m.cells[k]);
    }
}

/// What a card's mixer leaves.
pub open spec fn has_mixed(
    s: &Shape,
    k: Mixer,
    d: GdnDims,
    far: bool,
    mats: Mats,
    x: Val,
    r: Mem,
) -> bool {
    &&& r.at(dataflow::on(far, Part::Out)) == mixed(s, k, d, far, mats, x)
    &&& k matches Mixer::Attn { n_head_kv, device_pos, rotate, .. } ==> {
        &&& r.cells[Cell::HalfKeys(far)] == half_keys(
            s,
            far,
            n_head_kv,
            device_pos,
            rotate,
            mats,
            x,
        )
        &&& r.cells[Cell::HalfValues(far)] == half_values(s, far, n_head_kv, device_pos, mats, x)
    }
}

proof fn lemma_chain(
    s: &Shape,
    k: Mixer,
    d: GdnDims,
    far: bool,
    mats: Mats,
    stash: bool,
    x: Val,
    m: Mem,
)
    requires
        ready(s, far, mats, x, m),
    ensures
        ({
            let r = dataflow::run(hybrid_graph::chain_ops(s, k, d, far, mats, stash), 0, m);
            &&& r.card == m.card
            &&& has_mixed(s, k, d, far, mats, x, r)
            &&& k matches Mixer::Gdn { packed, .. } ==> (stash && !far && !packed
                ==> r.cells[Cell::Stash] == (Val::Stashed {
                qkv: Box::new(delta_rows(s, far, d, mats, x)),
                decay: Box::new(coefficient(s, far, d, false, x)),
                beta: Box::new(coefficient(s, far, d, true, x)),
            }))
            &&& same_but_own(far, r, m)
        }),
{
    match k {
        Mixer::Gdn { packed, .. } => lemma_gdn(s, far, d, packed, mats, stash, x, m),
        Mixer::Attn { n_head, n_head_kv, device_pos, rotate, .. } => lemma_attn(
            s,
            far,
            n_head,
            n_head_kv,
            device_pos,
            rotate,
            mats,
            x,
            m,
        ),
    }
}

proof fn lemma_out_bound(s: &Shape, kq: bool, m: Mem)
    ensures
        ({
            let r = dataflow::run(hybrid_graph::out_bound_ops(s, kq), 0, m);
            &&& r.card == Place::Second
            &&& r.at(dataflow::on(false, Part::In)) == m.at(dataflow::on(false, Part::In))
            &&& r.at(dataflow::on(false, Part::Blocks)) == dataflow::packed(dataflow::rows_of(s.n_embd), m.at(dataflow::on(false, Part::In)))
            &&& r.at(dataflow::on(true, Part::In)) == m.at(dataflow::on(false, Part::In))
            &&& kq ==> r.at(dataflow::on(true, Part::Blocks)) == dataflow::packed(dataflow::rows_of(s.n_embd), m.at(dataflow::on(false, Part::In)))
            &&& r.at(Buf::Cur) == m.at(Buf::Cur)
            &&& forall|i: usize, b: bool| #[trigger] r.cells[Cell::Ring(i, b)] == m.cells[Cell::Ring(i, b)]
        }),
{
    if kq {
        let ops = hybrid_graph::out_bound_ops(s, kq);
        let m1 = m.put(dataflow::on(false, Part::Blocks), dataflow::packed(dataflow::rows_of(s.n_embd), m.at(dataflow::on(false, Part::In))));
        assert(dataflow::step(m, ops[0]) == m1) by {
            reveal(dataflow::step);
        }
        let m2 = m1.put(Buf::Link, m1.at(dataflow::on(false, Part::In)));
        assert(dataflow::step(m1, ops[1]) == m2) by {
            reveal(dataflow::step);
        }
        let m3 = Mem { card: Place::Second, ..m2 };
        assert(dataflow::step(m2, ops[2]) == m3) by {
            reveal(dataflow::step);
        }
        let m4 = m3.put(dataflow::on(true, Part::In), m3.at(Buf::Link));
        assert(dataflow::step(m3, ops[3]) == m4) by {
            reveal(dataflow::step);
        }
        let m5 = m4.put(dataflow::on(true, Part::Blocks), dataflow::packed(dataflow::rows_of(s.n_embd), m4.at(dataflow::on(true, Part::In))));
        assert(dataflow::step(m4, ops[4]) == m5) by {
            reveal(dataflow::step);
        }
        assert(dataflow::run(ops, 0, m) == m5) by {
            reveal_with_fuel(dataflow::run, 6);
        }
    } else {
        let ops = hybrid_graph::out_bound_ops(s, kq);
        let m1 = m.put(dataflow::on(false, Part::Blocks), dataflow::packed(dataflow::rows_of(s.n_embd), m.at(dataflow::on(false, Part::In))));
        assert(dataflow::step(m, ops[0]) == m1) by {
            reveal(dataflow::step);
        }
        let m2 = m1.put(Buf::Link, m1.at(dataflow::on(false, Part::In)));
        assert(dataflow::step(m1, ops[1]) == m2) by {
            reveal(dataflow::step);
        }
        let m3 = Mem { card: Place::Second, ..m2 };
        assert(dataflow::step(m2, ops[2]) == m3) by {
            reveal(dataflow::step);
        }
        let m4 = m3.put(dataflow::on(true, Part::In), m3.at(Buf::Link));
        assert(dataflow::step(m3, ops[3]) == m4) by {
            reveal(dataflow::step);
        }
        assert(dataflow::run(ops, 0, m) == m4) by {
            reveal_with_fuel(dataflow::run, 5);
        }
    }
}

proof fn lemma_return(src: Buf, m: Mem)
    requires
        src != Buf::LinkBack,
    ensures
        ({
            let r = dataflow::run(hybrid_graph::return_ops(src), 0, m);
            &&& r.card == Place::Primary
            &&& r.at(Buf::LinkBack) == m.at(src)
            &&& dataflow::same_but(r, m, set![Cell::At(Buf::LinkBack)])
        }),
{
    let ops = hybrid_graph::return_ops(src);
    let m1 = m.put(Buf::LinkBack, m.at(src));
    assert(dataflow::step(m, ops[0]) == m1) by {
        reveal(dataflow::step);
    }
    let m2 = Mem { card: Place::Primary, ..m1 };
    assert(dataflow::step(m1, ops[1]) == m2) by {
        reveal(dataflow::step);
    }
    assert(dataflow::run(ops, 0, m) == m2) by {
        reveal_with_fuel(dataflow::run, 3);
    }
}

proof fn lemma_join_back(dst: Buf, m: Mem)
    requires
        dst == dataflow::on(false, Part::Out) || dst == dataflow::on(false, Part::FfnOut),
    ensures
        ({
            let r = dataflow::run(hybrid_graph::join_ops(dst), 0, m);
            &&& r.card == m.card
            &&& r.at(dst) == dataflow::sum(m.at(dst), m.at(Buf::LinkBack))
            &&& dataflow::same_but(r, m, set![Cell::At(dst), Cell::At(dataflow::on(false, Part::Recv))])
        }),
{
    let ops = hybrid_graph::join_ops(dst);
    let m1 = m.put(dataflow::on(false, Part::Recv), m.at(Buf::LinkBack));
    assert(dataflow::step(m, ops[0]) == m1) by {
        reveal(dataflow::step);
    }
    let m2 = m1.put(dst, dataflow::sum(m1.at(dst), m1.at(dataflow::on(false, Part::Recv))));
    assert(dataflow::step(m1, ops[1]) == m2) by {
        reveal(dataflow::step);
    }
    assert(dataflow::run(ops, 0, m) == m2) by {
        reveal_with_fuel(dataflow::run, 3);
    }
}

/// What a mixer on one card or on two leaves, from the input `x`.
pub open spec fn mixer_done(
    s: &Shape,
    k: Mixer,
    d: GdnDims,
    near: Mats,
    far: Mats,
    stash: bool,
    x: Val,
    r: Mem,
) -> bool {
    &&& r.at(dataflow::on(false, Part::Out)) == (if hybrid_graph::is_halved(k) {
        dataflow::sum(mixed(s, k, d, false, near, x), mixed(s, k, d, true, far, x))
    } else {
        mixed(s, k, d, false, near, x)
    })
    &&& k matches Mixer::Attn { halved, n_head_kv, device_pos, rotate, .. } ==> {
        &&& r.cells[Cell::HalfKeys(false)] == half_keys(
            s,
            false,
            n_head_kv,
            device_pos,
            rotate,
            near,
            x,
        )
        &&& r.cells[Cell::HalfValues(false)] == half_values(
            s,
            false,
            n_head_kv,
            device_pos,
            near,
            x,
        )
        &&& halved ==> r.cells[Cell::HalfKeys(true)] == half_keys(
            s,
            true,
            n_head_kv,
            device_pos,
            rotate,
            far,
            x,
        )
        &&& halved ==> r.cells[Cell::HalfValues(true)] == half_values(
            s,
            true,
            n_head_kv,
            device_pos,
            far,
            x,
        )
    }
    &&& k matches Mixer::Gdn { halved, packed } ==> (stash && !halved && !packed
        ==> r.cells[Cell::Stash] == (Val::Stashed {
        qkv: Box::new(delta_rows(s, false, d, near, x)),
        decay: Box::new(coefficient(s, false, d, false, x)),
        beta: Box::new(coefficient(s, false, d, true, x)),
    }))
}

proof fn lemma_mixer(
    s: &Shape,
    k: Mixer,
    d: GdnDims,
    near: Mats,
    far: Mats,
    stash: bool,
    x: Val,
    m: Mem,
)
    requires
        hybrid_graph::alike(near),
        hybrid_graph::alike(far),
        m.card == Place::Primary,
        m.at(dataflow::on(false, Part::In)) == x,
    ensures
        ({
            let r = dataflow::run(hybrid_graph::mixer_ops(s, k, d, near, far, stash), 0, m);
            &&& r.card == Place::Primary
            &&& mixer_done(s, k, d, near, far, stash, x, r)
            &&& r.at(Buf::Cur) == m.at(Buf::Cur)
            &&& forall|i: usize, b: bool| #[trigger]
                r.cells[Cell::Ring(i, b)] == m.cells[Cell::Ring(i, b)]
        }),
{
    if hybrid_graph::is_halved(k) {
        let a = hybrid_graph::out_bound_ops(s, far.first);
        let b = hybrid_graph::chain_ops(s, k, d, true, far, false);
        let c = hybrid_graph::return_ops(dataflow::on(true, Part::Out));
        let e = hybrid_graph::chain_ops(s, k, d, false, near, false);
        let g = hybrid_graph::join_ops(dataflow::on(false, Part::Out));
        dataflow::lists_run_in_order(a, b, m);
        dataflow::lists_run_in_order(a + b, c, m);
        dataflow::lists_run_in_order(a + b + c, e, m);
        dataflow::lists_run_in_order(a + b + c + e, g, m);
        let m1 = dataflow::run(a, 0, m);
        let m2 = dataflow::run(a + b, 0, m);
        let m3 = dataflow::run(a + b + c, 0, m);
        let m4 = dataflow::run(a + b + c + e, 0, m);
        lemma_out_bound(s, far.first, m);
        lemma_chain(s, k, d, true, far, false, x, m1);
        lemma_return(dataflow::on(true, Part::Out), m2);
        assert(m2.cells[Cell::At(dataflow::on(false, Part::In))] == m1.cells[Cell::At(dataflow::on(false, Part::In))]);
        assert(m2.cells[Cell::At(dataflow::on(false, Part::Blocks))] == m1.cells[Cell::At(
            dataflow::on(false, Part::Blocks),
        )]);
        lemma_chain(s, k, d, false, near, false, x, m3);
        lemma_join_back(dataflow::on(false, Part::Out), m4);
        assert(m4.cells[Cell::At(Buf::LinkBack)] == m3.cells[Cell::At(Buf::LinkBack)]);
        assert(m4.cells[Cell::HalfKeys(true)] == m3.cells[Cell::HalfKeys(true)]);
        assert(m4.cells[Cell::HalfValues(true)] == m3.cells[Cell::HalfValues(true)]);
    } else if near.first {
        let a = seq![hybrid_graph::quant_in(s, false)];
        let b = hybrid_graph::chain_ops(s, k, d, false, near, stash);
        dataflow::lists_run_in_order(a, b, m);
        let m1 = m.put(
            dataflow::on(false, Part::Blocks),
            dataflow::packed(dataflow::rows_of(s.n_embd), m.at(dataflow::on(false, Part::In))),
        );
        assert(dataflow::step(m, a[0]) == m1) by {
            reveal(dataflow::step);
        }
        assert(dataflow::run(a, 0, m) == m1) by {
            reveal_with_fuel(dataflow::run, 2);
        }
        lemma_chain(s, k, d, false, near, stash, x, m1);
    } else {
        let b = hybrid_graph::chain_ops(s, k, d, false, near, stash);
        assert(Seq::<Op>::empty() + b =~= b);
        lemma_chain(s, k, d, false, near, stash, x, m);
    }
}

proof fn lemma_start(s: &Shape, c: Capture, m: Mem)
    requires
        m.card == Place::Primary,
    ensures
        ({
            let r = dataflow::run(hybrid_graph::start_ops(s, c), 0, m);
            &&& r.card == m.card
            &&& r.at(Buf::Cur) == m.at(Buf::Cur)
            &&& r.at(dataflow::on(false, Part::In)) == dataflow::applied(m.card, Weight::AttnNorm, How::Norm(dataflow::rows_of(s.n_embd)), m.at(Buf::Cur))
            &&& c matches Capture::Ring(i) ==> r.cells[Cell::Ring(i, false)] == m.at(Buf::Cur)
            &&& c matches Capture::Staged(i) ==> r.cells[Cell::Ring(i, true)] == m.at(Buf::Cur)
        }),
{
    match c {
        Capture::No => {
            let ops = hybrid_graph::start_ops(s, c);
            let m1 = m.made(dataflow::on(false, Part::In), Weight::AttnNorm, How::Norm(dataflow::rows_of(s.n_embd)), Buf::Cur);
            assert(dataflow::step(m, ops[0]) == m1) by {
                reveal(dataflow::step);
            }
            assert(dataflow::run(ops, 0, m) == m1) by {
                reveal_with_fuel(dataflow::run, 2);
            }
        },
        Capture::Ring(i) => {
            let ops = hybrid_graph::start_ops(s, c);
            let m1 = m.keep(Cell::Ring(i, false), m.at(Buf::Cur));
            assert(dataflow::step(m, ops[0]) == m1) by {
                reveal(dataflow::step);
            }
            let m2 = m1.made(dataflow::on(false, Part::In), Weight::AttnNorm, How::Norm(dataflow::rows_of(s.n_embd)), Buf::Cur);
            assert(dataflow::step(m1, ops[1]) == m2) by {
                reveal(dataflow::step);
            }
            assert(dataflow::run(ops, 0, m) == m2) by {
                reveal_with_fuel(dataflow::run, 3);
            }
        },
        Capture::Staged(i) => {
            let ops = hybrid_graph::start_ops(s, c);
            let m1 = m.keep(Cell::Ring(i, true), m.at(Buf::Cur));
            assert(dataflow::step(m, ops[0]) == m1) by {
                reveal(dataflow::step);
            }
            let m2 = m1.made(dataflow::on(false, Part::In), Weight::AttnNorm, How::Norm(dataflow::rows_of(s.n_embd)), Buf::Cur);
            assert(dataflow::step(m1, ops[1]) == m2) by {
                reveal(dataflow::step);
            }
            assert(dataflow::run(ops, 0, m) == m2) by {
                reveal_with_fuel(dataflow::run, 3);
            }
        },
    }
}

/// What the mixing half of a hybrid layer computes. The stream gains what
/// the mixer makes of its norm, on one card or as the sum of both halves;
/// the feed-forward's input is the norm of that; the caches gain the keys
/// and values; a draft's capture is the stream as it was; and a replay is
/// left the rows and coefficients that it needs.
pub proof fn mix_half_computes_the_mixer(
    s: &Shape,
    c: Capture,
    k: Mixer,
    d: GdnDims,
    near: Mats,
    far: Mats,
    stash: bool,
    m: Mem,
)
    requires
        hybrid_graph::alike(near),
        hybrid_graph::alike(far),
        m.card == Place::Primary,
    ensures
        ({
            let r = dataflow::run(hybrid_graph::mix_half_ops(s, c, k, d, near, far, stash), 0, m);
            let pr = Place::Primary;
            let cur = m.at(Buf::Cur);
            let x = dataflow::applied(pr, Weight::AttnNorm, How::Norm(dataflow::rows_of(s.n_embd)), cur);
            let out = if hybrid_graph::is_halved(k) {
                dataflow::sum(mixed(s, k, d, false, near, x), mixed(s, k, d, true, far, x))
            } else {
                mixed(s, k, d, false, near, x)
            };
            &&& r.card == pr
            &&& r.at(Buf::Cur) == cur
            &&& r.at(Buf::AfterAttn) == dataflow::sum(cur, out)
            &&& r.at(dataflow::on(false, Part::In)) == dataflow::applied(
                pr,
                Weight::FfnNorm,
                How::Norm(dataflow::rows_of(s.n_embd)),
                dataflow::sum(cur, out),
            )
            &&& mixer_done(s, k, d, near, far, stash, x, r)
            &&& c matches Capture::Ring(i) ==> r.cells[Cell::Ring(i, false)] == cur
            &&& c matches Capture::Staged(i) ==> r.cells[Cell::Ring(i, true)] == cur
        }),
{
    let e = Seq::<Op>::empty();
    let a = hybrid_graph::start_ops(s, c);
    let b = hybrid_graph::mixer_ops(s, k, d, near, far, stash);
    let g = hybrid_graph::close_ops(s);
    dataflow::lists_run_in_order(e, a, m);
    dataflow::lists_run_in_order(e + a, b, m);
    dataflow::lists_run_in_order(e + a + b, g, m);
    assert(dataflow::run(e, 0, m) == m) by {
        reveal_with_fuel(dataflow::run, 1);
    }
    let x = dataflow::applied(
        Place::Primary,
        Weight::AttnNorm,
        How::Norm(dataflow::rows_of(s.n_embd)),
        m.at(Buf::Cur),
    );
    let n1 = dataflow::run(e + a, 0, m);
    let n2 = dataflow::run(e + a + b, 0, m);
    lemma_start(s, c, m);
    lemma_mixer(s, k, d, near, far, stash, x, n1);
    let ops = hybrid_graph::close_ops(s);
    let q1 = n2.put(Buf::AfterAttn, dataflow::sum(n2.at(Buf::Cur), n2.at(dataflow::on(false, Part::Out))));
    assert(dataflow::step(n2, ops[0]) == q1) by {
        reveal(dataflow::step);
    }
    let q2 = q1.made(dataflow::on(false, Part::In), Weight::FfnNorm, How::Norm(dataflow::rows_of(s.n_embd)), Buf::AfterAttn);
    assert(dataflow::step(q1, ops[1]) == q2) by {
        reveal(dataflow::step);
    }
    assert(dataflow::run(ops, 0, n2) == q2) by {
        reveal_with_fuel(dataflow::run, 3);
    }
}

/// A card's resident feed-forward of width `w`, from its input in blocks.
pub open spec fn resident(s: &Shape, far: bool, w: u32, x: Val) -> Val {
    let c = card(far);
    let b = dataflow::packed(dataflow::rows_of(s.n_embd), x);
    dataflow::times(
        c,
        Weight::ResidentDown,
        dataflow::rows_of(w),
        dataflow::rows_of(s.n_embd),
        dataflow::packed(
            dataflow::rows_of(w),
            dataflow::gated(
                dataflow::rows_of(w),
                dataflow::times(c, Weight::ResidentGate, dataflow::rows_of(s.n_embd), dataflow::rows_of(w), b),
                dataflow::times(c, Weight::ResidentUp, dataflow::rows_of(s.n_embd), dataflow::rows_of(w), b),
            ),
        ),
    )
}

proof fn lemma_resident(s: &Shape, far: bool, w: u32, x: Val, m: Mem)
    requires
        m.card == card(far),
        m.at(dataflow::on(far, Part::Blocks)) == dataflow::packed(dataflow::rows_of(s.n_embd), x),
    ensures
        ({
            let r = dataflow::run(hybrid_graph::resident_ops(s, far, w), 0, m);
            &&& r.card == m.card
            &&& r.at(dataflow::on(far, Part::FfnOut)) == resident(s, far, w, x)
            &&& same_but_own(far, r, m)
        }),
{
    let ops = hybrid_graph::resident_ops(s, far, w);
    let m1 = m.made(dataflow::on(far, Part::GateAct), Weight::ResidentGate, How::Product { inner: dataflow::rows_of(s.n_embd), outer: dataflow::rows_of(w) }, dataflow::on(far, Part::Blocks));
    assert(dataflow::step(m, ops[0]) == m1) by {
        reveal(dataflow::step);
    }
    let m2 = m1.made(dataflow::on(far, Part::UpAct), Weight::ResidentUp, How::Product { inner: dataflow::rows_of(s.n_embd), outer: dataflow::rows_of(w) }, dataflow::on(far, Part::Blocks));
    assert(dataflow::step(m1, ops[1]) == m2) by {
        reveal(dataflow::step);
    }
    let m3 = m2.put(dataflow::on(far, Part::Mid), dataflow::gated(dataflow::rows_of(w), m2.at(dataflow::on(far, Part::GateAct)), m2.at(dataflow::on(far, Part::UpAct))));
    assert(dataflow::step(m2, ops[2]) == m3) by {
        reveal(dataflow::step);
    }
    let m4 = m3.put(dataflow::on(far, Part::MidBlocks), dataflow::packed(dataflow::rows_of(w), m3.at(dataflow::on(far, Part::Mid))));
    assert(dataflow::step(m3, ops[3]) == m4) by {
        reveal(dataflow::step);
    }
    let m5 = m4.made(dataflow::on(far, Part::FfnOut), Weight::ResidentDown, How::Product { inner: dataflow::rows_of(w), outer: dataflow::rows_of(s.n_embd) }, dataflow::on(far, Part::MidBlocks));
    assert(dataflow::step(m4, ops[4]) == m5) by {
        reveal(dataflow::step);
    }
    assert(dataflow::run(ops, 0, m) == m5) by {
        reveal_with_fuel(dataflow::run, 6);
    }
}

proof fn lemma_blocks_out(s: &Shape, m: Mem)
    ensures
        ({
            let r = dataflow::run(hybrid_graph::blocks_out_ops(s), 0, m);
            &&& r.card == Place::Second
            &&& r.at(dataflow::on(false, Part::Blocks)) == dataflow::packed(dataflow::rows_of(s.n_embd), m.at(dataflow::on(false, Part::In)))
            &&& r.at(dataflow::on(true, Part::Blocks)) == dataflow::packed(dataflow::rows_of(s.n_embd), m.at(dataflow::on(false, Part::In)))
            &&& r.at(Buf::AfterAttn) == m.at(Buf::AfterAttn)
        }),
{
    let ops = hybrid_graph::blocks_out_ops(s);
    let m1 = m.put(dataflow::on(false, Part::Blocks), dataflow::packed(dataflow::rows_of(s.n_embd), m.at(dataflow::on(false, Part::In))));
    assert(dataflow::step(m, ops[0]) == m1) by {
        reveal(dataflow::step);
    }
    let m2 = m1.put(Buf::Link, m1.at(dataflow::on(false, Part::Blocks)));
    assert(dataflow::step(m1, ops[1]) == m2) by {
        reveal(dataflow::step);
    }
    let m3 = Mem { card: Place::Second, ..m2 };
    assert(dataflow::step(m2, ops[2]) == m3) by {
        reveal(dataflow::step);
    }
    let m4 = m3.put(dataflow::on(true, Part::Blocks), m3.at(Buf::Link));
    assert(dataflow::step(m3, ops[3]) == m4) by {
        reveal(dataflow::step);
    }
    assert(dataflow::run(ops, 0, m) == m4) by {
        reveal_with_fuel(dataflow::run, 5);
    }
}

/// The always-on expert behind its own gate; zero without one.
pub open spec fn always_on(s: &Shape, shared: bool, x: Val) -> Val {
    let w = s.n_ff_exp;
    if shared {
        Val::SharedGated {
            x: Box::new(
                dataflow::gated_ffn(
                    s,
                    w,
                    Weight::SharedGate,
                    Weight::SharedUp,
                    Weight::SharedDown,
                    x,
                ),
            ),
            gate: Box::new(
                dataflow::applied(
                    Place::Primary,
                    Weight::SharedGateIn,
                    How::Rows { from: s.n_embd, to: 1, rows: 1 },
                    x,
                ),
            ),
        }
    } else {
        Val::Zeros
    }
}

/// The routed experts' sum, from the picks that the router makes.
pub open spec fn routed(s: &Shape, x: Val) -> Val {
    let logits = Box::new(
        dataflow::applied(
            Place::Primary,
            Weight::Router,
            How::Rows { from: s.n_embd, to: s.n_expert, rows: 1 },
            x,
        ),
    );
    Val::Routed {
        picks: Box::new(Val::Picked { logits }),
        weights: Box::new(Val::PickWeights { logits }),
        x: Box::new(dataflow::packed(dataflow::rows_of(s.n_embd), x)),
    }
}

proof fn lemma_hybrid_router(s: &Shape, shared: bool, m: Mem)
    requires
        m.card == Place::Primary,
    ensures
        ({
            let r = dataflow::run(hybrid_graph::hybrid_router_ops(s, shared), 0, m);
            &&& r.card == m.card
            &&& r.at(Buf::AfterAttn) == m.at(Buf::AfterAttn)
            &&& r.at(Buf::SharedOut) == always_on(s, shared, m.at(dataflow::on(false, Part::In)))
            &&& (Val::Routed { picks: Box::new(r.at(Buf::Picks)), weights: Box::new(r.at(Buf::Weights)), x: Box::new(r.at(dataflow::on(false, Part::Blocks))) }) == routed(s, m.at(dataflow::on(false, Part::In)))
        }),
{
    if shared {
        let ops = hybrid_graph::hybrid_router_ops(s, shared);
        let m1 = m.made(Buf::RouterLogits, Weight::Router, How::Rows { from: s.n_embd, to: s.n_expert, rows: 1 }, dataflow::on(false, Part::In));
        assert(dataflow::step(m, ops[0]) == m1) by {
            reveal(dataflow::step);
        }
        let m2 = m1.put(Buf::Picks, Val::Picked { logits: Box::new(m1.at(Buf::RouterLogits)) }).put(Buf::Weights, Val::PickWeights { logits: Box::new(m1.at(Buf::RouterLogits)) });
        assert(dataflow::step(m1, ops[1]) == m2) by {
            reveal(dataflow::step);
        }
        let m3 = m2.made(Buf::GateAct, Weight::SharedGate, How::Product { inner: dataflow::rows_of(s.n_embd), outer: dataflow::rows_of(s.n_ff_exp) }, dataflow::on(false, Part::In));
        assert(dataflow::step(m2, ops[2]) == m3) by {
            reveal(dataflow::step);
        }
        let m4 = m3.made(Buf::UpAct, Weight::SharedUp, How::Product { inner: dataflow::rows_of(s.n_embd), outer: dataflow::rows_of(s.n_ff_exp) }, dataflow::on(false, Part::In));
        assert(dataflow::step(m3, ops[3]) == m4) by {
            reveal(dataflow::step);
        }
        let m5 = m4.put(Buf::FfnMid, dataflow::gated(dataflow::rows_of(s.n_ff_exp), m4.at(Buf::GateAct), m4.at(Buf::UpAct)));
        assert(dataflow::step(m4, ops[4]) == m5) by {
            reveal(dataflow::step);
        }
        let m6 = m5.made(Buf::SharedOut, Weight::SharedDown, How::Product { inner: dataflow::rows_of(s.n_ff_exp), outer: dataflow::rows_of(s.n_embd) }, Buf::FfnMid);
        assert(dataflow::step(m5, ops[5]) == m6) by {
            reveal(dataflow::step);
        }
        let m7 = m6.made(Buf::SharedGate, Weight::SharedGateIn, How::Rows { from: s.n_embd, to: 1, rows: 1 }, dataflow::on(false, Part::In));
        assert(dataflow::step(m6, ops[6]) == m7) by {
            reveal(dataflow::step);
        }
        let m8 = m7.put(Buf::SharedOut, Val::SharedGated { x: Box::new(m7.at(Buf::SharedOut)), gate: Box::new(m7.at(Buf::SharedGate)) });
        assert(dataflow::step(m7, ops[7]) == m8) by {
            reveal(dataflow::step);
        }
        let m9 = m8.put(dataflow::on(false, Part::Blocks), dataflow::packed(dataflow::rows_of(s.n_embd), m8.at(dataflow::on(false, Part::In))));
        assert(dataflow::step(m8, ops[8]) == m9) by {
            reveal(dataflow::step);
        }
        assert(dataflow::run(ops, 0, m) == m9) by {
            reveal_with_fuel(dataflow::run, 10);
        }
    } else {
        let ops = hybrid_graph::hybrid_router_ops(s, shared);
        let m1 = m.made(Buf::RouterLogits, Weight::Router, How::Rows { from: s.n_embd, to: s.n_expert, rows: 1 }, dataflow::on(false, Part::In));
        assert(dataflow::step(m, ops[0]) == m1) by {
            reveal(dataflow::step);
        }
        let m2 = m1.put(Buf::Picks, Val::Picked { logits: Box::new(m1.at(Buf::RouterLogits)) }).put(Buf::Weights, Val::PickWeights { logits: Box::new(m1.at(Buf::RouterLogits)) });
        assert(dataflow::step(m1, ops[1]) == m2) by {
            reveal(dataflow::step);
        }
        let m3 = m2.put(Buf::SharedOut, Val::Zeros);
        assert(dataflow::step(m2, ops[2]) == m3) by {
            reveal(dataflow::step);
        }
        let m4 = m3.put(dataflow::on(false, Part::Blocks), dataflow::packed(dataflow::rows_of(s.n_embd), m3.at(dataflow::on(false, Part::In))));
        assert(dataflow::step(m3, ops[3]) == m4) by {
            reveal(dataflow::step);
        }
        assert(dataflow::run(ops, 0, m) == m4) by {
            reveal_with_fuel(dataflow::run, 5);
        }
    }
}

/// What the feed-forward half of a hybrid layer computes: the stream behind
/// the mixer, plus the resident feed-forward, or the sum of its halves, or
/// the routed experts and the always-on one.
pub proof fn ffn_half_computes_ffn(s: &Shape, f: HybridFfn, half_width: u32, m: Mem)
    requires
        m.card == Place::Primary,
    ensures
        ({
            let r = dataflow::run(hybrid_graph::ffn_half_ops(s, f, half_width), 0, m);
            let x = m.at(dataflow::on(false, Part::In));
            &&& r.card == Place::Primary
            &&& r.at(Buf::Cur) == dataflow::sum(
                m.at(Buf::AfterAttn),
                match f {
                    HybridFfn::Dense => resident(s, false, s.n_ff_exp, x),
                    HybridFfn::Halved => dataflow::sum(
                        resident(s, false, half_width, x),
                        resident(s, true, half_width, x),
                    ),
                    HybridFfn::Experts { shared } => dataflow::sum(routed(s, x), always_on(s, shared, x)),
                },
            )
        }),
{
    let x = m.at(dataflow::on(false, Part::In));
    let fo = dataflow::on(false, Part::FfnOut);
    let last = seq![hybrid_graph::stream_op(fo)];
    match f {
        HybridFfn::Dense => {
            let a = seq![hybrid_graph::quant_in(s, false)];
            let b = hybrid_graph::resident_ops(s, false, s.n_ff_exp);
            dataflow::lists_run_in_order(a, b, m);
            dataflow::lists_run_in_order(a + b, last, m);
            let n1 = m.put(dataflow::on(false, Part::Blocks), dataflow::packed(dataflow::rows_of(s.n_embd), x));
            assert(dataflow::step(m, a[0]) == n1) by {
                reveal(dataflow::step);
            }
            assert(dataflow::run(a, 0, m) == n1) by {
                reveal_with_fuel(dataflow::run, 2);
            }
            lemma_resident(s, false, s.n_ff_exp, x, n1);
            let n2 = dataflow::run(a + b, 0, m);
            assert(n2.cells[Cell::At(Buf::AfterAttn)] == n1.cells[Cell::At(Buf::AfterAttn)]);
            lemma_last(fo, n2);
        },
        HybridFfn::Halved => {
            let a = hybrid_graph::blocks_out_ops(s);
            let b = hybrid_graph::resident_ops(s, true, half_width);
            let c = hybrid_graph::return_ops(dataflow::on(true, Part::FfnOut));
            let e = hybrid_graph::resident_ops(s, false, half_width);
            let g = hybrid_graph::join_ops(fo);
            dataflow::lists_run_in_order(a, b, m);
            dataflow::lists_run_in_order(a + b, c, m);
            dataflow::lists_run_in_order(a + b + c, e, m);
            dataflow::lists_run_in_order(a + b + c + e, g, m);
            dataflow::lists_run_in_order(a + b + c + e + g, last, m);
            let n1 = dataflow::run(a, 0, m);
            let n2 = dataflow::run(a + b, 0, m);
            let n3 = dataflow::run(a + b + c, 0, m);
            let n4 = dataflow::run(a + b + c + e, 0, m);
            let n5 = dataflow::run(a + b + c + e + g, 0, m);
            lemma_blocks_out(s, m);
            lemma_resident(s, true, half_width, x, n1);
            lemma_return(dataflow::on(true, Part::FfnOut), n2);
            assert(n2.cells[Cell::At(dataflow::on(false, Part::Blocks))] == n1.cells[Cell::At(
                dataflow::on(false, Part::Blocks),
            )]);
            assert(n2.cells[Cell::At(Buf::AfterAttn)] == n1.cells[Cell::At(Buf::AfterAttn)]);
            lemma_resident(s, false, half_width, x, n3);
            assert(n4.cells[Cell::At(Buf::LinkBack)] == n3.cells[Cell::At(Buf::LinkBack)]);
            assert(n4.cells[Cell::At(Buf::AfterAttn)] == n3.cells[Cell::At(Buf::AfterAttn)]);
            lemma_join_back(fo, n4);
            lemma_last(fo, n5);
        },
        HybridFfn::Experts { shared } => {
            let a = hybrid_graph::hybrid_router_ops(s, shared);
            dataflow::lists_run_in_order(a, hybrid_graph::hybrid_experts_ops(), m);
            lemma_hybrid_router(s, shared, m);
            let n0 = dataflow::run(a, 0, m);
            let ops = hybrid_graph::hybrid_experts_ops();
            let n1 = n0.put(Buf::MoeOut, Val::Routed { picks: Box::new(n0.at(Buf::Picks)), weights: Box::new(n0.at(Buf::Weights)), x: Box::new(n0.at(dataflow::on(false, Part::Blocks))) });
            assert(dataflow::step(n0, ops[0]) == n1) by {
                reveal(dataflow::step);
            }
            let n2 = n1.put(Buf::FfnOut, dataflow::sum(n1.at(Buf::MoeOut), n1.at(Buf::SharedOut)));
            assert(dataflow::step(n1, ops[1]) == n2) by {
                reveal(dataflow::step);
            }
            let n3 = n2.put(Buf::Cur, dataflow::sum(n2.at(Buf::AfterAttn), n2.at(Buf::FfnOut)));
            assert(dataflow::step(n2, ops[2]) == n3) by {
                reveal(dataflow::step);
            }
            assert(dataflow::run(ops, 0, n0) == n3) by {
                reveal_with_fuel(dataflow::run, 4);
            }
        },
    }
}

proof fn lemma_last(b: Buf, m: Mem)
    ensures
        ({
            let r = dataflow::run(seq![hybrid_graph::stream_op(b)], 0, m);
            &&& r.card == m.card
            &&& r.at(Buf::Cur) == dataflow::sum(m.at(Buf::AfterAttn), m.at(b))
        }),
{
    reveal(dataflow::step);
    reveal_with_fuel(dataflow::run, 2);
}

} // verus!
