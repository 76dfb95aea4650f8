//! What the launches of a routed layer compute, over symbolic rows: the
//! router, the experts on every card and on the processor, and the stream
//! they join.

use vstd::prelude::*;

use crate::attn::RouterPlan;
use crate::dataflow;
use crate::dataflow::{Cell, How, Mem, Val};
use crate::graph;
use crate::graph::{Buf, FfnFacts, MoeFacts, Op, Place, Refs, TierUse, Weight, Width};
use crate::shape::Shape;

verus! {

/// The experts' sum for the slots of `refs`: their gated middle rows, in
/// blocks, projected back.
pub open spec fn experts(s: &Shape, on: Place, refs: Refs, weights: Val, x: Val) -> Val {
    Val::ExpertOut {
        on,
        refs,
        x: Box::new(
            dataflow::packed(
                Width { n: s.n_expert_used, each: s.n_ff_exp },
                Val::Mid {
                    on,
                    refs,
                    grouped: false,
                    weights: Box::new(weights),
                    x: Box::new(x),
                },
            ),
        ),
    }
}

/// The same with the slots of one expert run together.
pub open spec fn grouped_experts(s: &Shape, refs: Refs, weights: Val, x: Val) -> Val {
    let on = Place::Primary;
    Val::SlotSum {
        x: Box::new(
            Val::SlotRows {
                on,
                refs,
                over: Box::new(Val::Zeros),
                x: Box::new(
                    dataflow::packed(
                        Width { n: s.n_expert_used, each: s.n_ff_exp },
                        Val::Mid {
                            on,
                            refs,
                            grouped: true,
                            weights: Box::new(weights),
                            x: Box::new(x),
                        },
                    ),
                ),
            },
        ),
    }
}

/// The experts' own output biases, by the slots' weights.
pub open spec fn with_biases(has: bool, on: Place, refs: Refs, weights: Val, x: Val) -> Val {
    if has {
        Val::ExpertBiased { on, refs, weights: Box::new(weights), x: Box::new(x) }
    } else {
        x
    }
}

/// What the primary's own slots sum up to.
pub open spec fn near_sum(s: &Shape, e: MoeFacts, weights: Val, x: Val) -> Val {
    let pr = Place::Primary;
    let routed = if e.grouped {
        grouped_experts(s, Refs::Routed, weights, x)
    } else {
        experts(s, pr, Refs::Routed, weights, x)
    };
    let own = with_biases(e.bias, pr, Refs::Routed, weights, routed);
    if e.shared_pass {
        dataflow::sum(own, experts(s, pr, Refs::Shared, weights, x))
    } else {
        own
    }
}

/// What a tier's routed slots sum up to, on its own card from its own copy
/// of the normed rows and the weights.
pub open spec fn tier_sum(s: &Shape, bias: bool, t: usize, weights: Val, x: Val) -> Val {
    let w = dataflow::shifted(dataflow::rows_of(s.n_expert_used), weights);
    let b = dataflow::packed(dataflow::rows_of(s.n_embd), dataflow::shifted(dataflow::rows_of(s.n_embd), x));
    with_biases(
        bias,
        Place::Tier(t),
        Refs::Tier(t),
        w,
        experts(s, Place::Tier(t), Refs::Tier(t), w, b),
    )
}

/// What a tier's shared slots sum up to.
pub open spec fn tier_shared_sum(s: &Shape, t: usize, weights: Val, x: Val) -> Val {
    let w = dataflow::shifted(dataflow::rows_of(s.n_expert_used), weights);
    let b = dataflow::packed(dataflow::rows_of(s.n_embd), dataflow::shifted(dataflow::rows_of(s.n_embd), x));
    experts(s, Place::Tier(t), Refs::TierShared(t), w, b)
}

/// `acc` with the partial sums of the first `n` tiers, each brought back and
/// added once.
pub open spec fn with_tiers(
    s: &Shape,
    bias: bool,
    us: Seq<TierUse>,
    n: int,
    weights: Val,
    x: Val,
    acc: Val,
) -> Val
    decreases n,
{
    if n <= 0 {
        acc
    } else {
        let u = us[n - 1];
        let before = with_tiers(s, bias, us, n - 1, weights, x, acc);
        let a = if u.routed {
            dataflow::sum(before, dataflow::shifted(dataflow::rows_of(s.n_embd), tier_sum(s, bias, u.tier, weights, x)))
        } else {
            before
        };
        if u.shared {
            dataflow::sum(a, dataflow::shifted(dataflow::rows_of(s.n_embd), tier_shared_sum(s, u.tier, weights, x)))
        } else {
            a
        }
    }
}

/// All that the routed experts contribute: the primary's slots, the tiers'
/// and the processor lanes', each once.
pub open spec fn routed_sum(
    s: &Shape,
    us: Seq<TierUse>,
    e: MoeFacts,
    weights: Val,
    x: Val,
    blocks: Val,
) -> Val {
    let cards = with_tiers(
        s,
        e.bias,
        us,
        us.len() as int,
        weights,
        x,
        near_sum(s, e, weights, blocks),
    );
    if e.lanes {
        dataflow::sum(cards, Val::Lanes)
    } else {
        cards
    }
}

/// The stream behind a routed layer: what it was behind attention, plus the
/// routed and the shared experts' sums, normed and convolved where the layer
/// does, and scaled as a whole.
pub open spec fn behind_experts(s: &Shape, f: FfnFacts, after: Val, routed: Val, shared: Val) -> Val {
    let pr = Place::Primary;
    let both = dataflow::sum(dataflow::maybe(f.sandwich, pr, Weight::PostRoutedNorm, How::NormIn, routed), shared);
    let ffn = dataflow::maybe(f.sandwich, pr, Weight::PostFfnNorm, How::NormIn, both);
    dataflow::scaled(
        f.out_scale,
        dataflow::sum(after, dataflow::filtered(f.conv, pr, Weight::ConvMlp, 3, dataflow::rows_of(s.n_embd), ffn)),
    )
}

/// Cells that the launches behind the resolve may change before the sums
/// join, besides those of the tiers.
pub open spec fn near_cells() -> Set<Cell> {
    set![
        Cell::At(Buf::ExpertMid),
        Cell::At(Buf::MidBlocks),
        Cell::At(Buf::SlotSums),
        Cell::At(Buf::MoeOut),
        Cell::At(Buf::FfnOut),
        Cell::Seen,
    ]
}

/// A buffer of some tier.
pub open spec fn of_tiers(c: Cell) -> bool {
    c matches Cell::At(b) && (b is TierIn || b is TierWeights || b is TierBlocks || b is TierMid
        || b is TierMidBlocks || b is TierOut || b is TierSharedOut)
}

proof fn lemma_tier_in(s: &Shape, u: TierUse, m: Mem)
    ensures
        ({
            let r = dataflow::run(graph::tier_in_ops(s, u), 0, m);
            &&& r.card == Place::Tier(u.tier)
            &&& r.at(Buf::TierWeights(u.tier)) == dataflow::shifted(dataflow::rows_of(s.n_expert_used), m.at(Buf::Weights))
            &&& r.at(Buf::TierBlocks(u.tier)) == dataflow::packed(dataflow::rows_of(s.n_embd), dataflow::shifted(dataflow::rows_of(s.n_embd), m.at(Buf::Normed)))
            &&& dataflow::same_but(r, m, set![Cell::At(Buf::TierIn(u.tier)), Cell::At(Buf::TierWeights(u.tier)), Cell::At(Buf::TierBlocks(u.tier))])
        }),
{
    let t = u.tier;
    if u.shared {
        let ops = graph::tier_in_ops(s, u);
        let m1 = m.put(Buf::TierIn(t), dataflow::shifted(dataflow::rows_of(s.n_embd), m.at(Buf::Normed)));
        assert(dataflow::step(m, ops[0]) == m1) by {
            reveal(dataflow::step);
        }
        let m2 = m1.put(Buf::TierWeights(t), dataflow::shifted(dataflow::rows_of(s.n_expert_used), m1.at(Buf::Weights)));
        assert(dataflow::step(m1, ops[1]) == m2) by {
            reveal(dataflow::step);
        }
        let m3 = Mem { card: Place::Tier(t), ..m2 };
        assert(dataflow::step(m2, ops[2]) == m3) by {
            reveal(dataflow::step);
        }
        let m4 = m3;
        assert(dataflow::step(m3, ops[3]) == m4) by {
            reveal(dataflow::step);
        }
        let m5 = m4;
        assert(dataflow::step(m4, ops[4]) == m5) by {
            reveal(dataflow::step);
        }
        let m6 = m5.put(Buf::TierBlocks(t), dataflow::packed(dataflow::rows_of(s.n_embd), m5.at(Buf::TierIn(t))));
        assert(dataflow::step(m5, ops[5]) == m6) by {
            reveal(dataflow::step);
        }
        assert(dataflow::run(ops, 0, m) == m6) by {
            reveal_with_fuel(dataflow::run, 7);
        }
    } else {
        let ops = graph::tier_in_ops(s, u);
        let m1 = m.put(Buf::TierIn(t), dataflow::shifted(dataflow::rows_of(s.n_embd), m.at(Buf::Normed)));
        assert(dataflow::step(m, ops[0]) == m1) by {
            reveal(dataflow::step);
        }
        let m2 = m1.put(Buf::TierWeights(t), dataflow::shifted(dataflow::rows_of(s.n_expert_used), m1.at(Buf::Weights)));
        assert(dataflow::step(m1, ops[1]) == m2) by {
            reveal(dataflow::step);
        }
        let m3 = Mem { card: Place::Tier(t), ..m2 };
        assert(dataflow::step(m2, ops[2]) == m3) by {
            reveal(dataflow::step);
        }
        let m4 = m3;
        assert(dataflow::step(m3, ops[3]) == m4) by {
            reveal(dataflow::step);
        }
        let m5 = m4.put(Buf::TierBlocks(t), dataflow::packed(dataflow::rows_of(s.n_embd), m4.at(Buf::TierIn(t))));
        assert(dataflow::step(m4, ops[4]) == m5) by {
            reveal(dataflow::step);
        }
        assert(dataflow::run(ops, 0, m) == m5) by {
            reveal_with_fuel(dataflow::run, 6);
        }
    }
}

proof fn lemma_tier_routed(s: &Shape, u: TierUse, bias: bool, m: Mem)
    requires
        m.card == Place::Tier(u.tier),
    ensures
        ({
            let r = dataflow::run(graph::tier_routed_ops(s, u, bias), 0, m);
            &&& r.card == m.card
            &&& u.routed ==> r.at(Buf::TierOut(u.tier)) == with_biases(bias, m.card, Refs::Tier(u.tier), m.at(Buf::TierWeights(u.tier)), experts(s, m.card, Refs::Tier(u.tier), m.at(Buf::TierWeights(u.tier)), m.at(Buf::TierBlocks(u.tier))))
            &&& !u.routed ==> r == m
            &&& dataflow::same_but(r, m, set![Cell::At(Buf::TierMid(u.tier)), Cell::At(Buf::TierMidBlocks(u.tier)), Cell::At(Buf::TierOut(u.tier))])
        }),
{
    let t = u.tier;
    if !u.routed {
        let ops = graph::tier_routed_ops(s, u, bias);
        assert(dataflow::run(ops, 0, m) == m) by {
            reveal_with_fuel(dataflow::run, 1);
        }
    } else if bias {
        let ops = graph::tier_routed_ops(s, u, bias);
        let m1 = m.put(Buf::TierMid(t), Val::Mid { on: m.card, refs: Refs::Tier(t), grouped: false, weights: Box::new(m.at(Buf::TierWeights(t))), x: Box::new(m.at(Buf::TierBlocks(t))) });
        assert(dataflow::step(m, ops[0]) == m1) by {
            reveal(dataflow::step);
        }
        let m2 = m1.put(Buf::TierMidBlocks(t), dataflow::packed(Width { n: s.n_expert_used, each: s.n_ff_exp }, m1.at(Buf::TierMid(t))));
        assert(dataflow::step(m1, ops[1]) == m2) by {
            reveal(dataflow::step);
        }
        let m3 = m2.put(Buf::TierOut(t), Val::ExpertOut { on: m2.card, refs: Refs::Tier(t), x: Box::new(m2.at(Buf::TierMidBlocks(t))) });
        assert(dataflow::step(m2, ops[2]) == m3) by {
            reveal(dataflow::step);
        }
        let m4 = m3.put(Buf::TierOut(t), Val::ExpertBiased { on: m3.card, refs: Refs::Tier(t), weights: Box::new(m3.at(Buf::TierWeights(t))), x: Box::new(m3.at(Buf::TierOut(t))) });
        assert(dataflow::step(m3, ops[3]) == m4) by {
            reveal(dataflow::step);
        }
        assert(dataflow::run(ops, 0, m) == m4) by {
            reveal_with_fuel(dataflow::run, 5);
        }
    } else {
        let ops = graph::tier_routed_ops(s, u, bias);
        let m1 = m.put(Buf::TierMid(t), Val::Mid { on: m.card, refs: Refs::Tier(t), grouped: false, weights: Box::new(m.at(Buf::TierWeights(t))), x: Box::new(m.at(Buf::TierBlocks(t))) });
        assert(dataflow::step(m, ops[0]) == m1) by {
            reveal(dataflow::step);
        }
        let m2 = m1.put(Buf::TierMidBlocks(t), dataflow::packed(Width { n: s.n_expert_used, each: s.n_ff_exp }, m1.at(Buf::TierMid(t))));
        assert(dataflow::step(m1, ops[1]) == m2) by {
            reveal(dataflow::step);
        }
        let m3 = m2.put(Buf::TierOut(t), Val::ExpertOut { on: m2.card, refs: Refs::Tier(t), x: Box::new(m2.at(Buf::TierMidBlocks(t))) });
        assert(dataflow::step(m2, ops[2]) == m3) by {
            reveal(dataflow::step);
        }
        assert(dataflow::run(ops, 0, m) == m3) by {
            reveal_with_fuel(dataflow::run, 4);
        }
    }
}

proof fn lemma_tier_shared(s: &Shape, u: TierUse, m: Mem)
    requires
        m.card == Place::Tier(u.tier),
    ensures
        ({
            let r = dataflow::run(graph::tier_shared_ops(s, u), 0, m);
            &&& r.card == m.card
            &&& u.shared ==> r.at(Buf::TierSharedOut(u.tier)) == experts(s, m.card, Refs::TierShared(u.tier), m.at(Buf::TierWeights(u.tier)), m.at(Buf::TierBlocks(u.tier)))
            &&& !u.shared ==> r == m
            &&& dataflow::same_but(r, m, set![Cell::At(Buf::TierMid(u.tier)), Cell::At(Buf::TierMidBlocks(u.tier)), Cell::At(Buf::TierSharedOut(u.tier))])
        }),
{
    let t = u.tier;
    if u.shared {
        let ops = graph::tier_shared_ops(s, u);
        let m1 = m.put(Buf::TierMid(t), Val::Mid { on: m.card, refs: Refs::TierShared(t), grouped: false, weights: Box::new(m.at(Buf::TierWeights(t))), x: Box::new(m.at(Buf::TierBlocks(t))) });
        assert(dataflow::step(m, ops[0]) == m1) by {
            reveal(dataflow::step);
        }
        let m2 = m1.put(Buf::TierMidBlocks(t), dataflow::packed(Width { n: s.n_expert_used, each: s.n_ff_exp }, m1.at(Buf::TierMid(t))));
        assert(dataflow::step(m1, ops[1]) == m2) by {
            reveal(dataflow::step);
        }
        let m3 = m2.put(Buf::TierSharedOut(t), Val::ExpertOut { on: m2.card, refs: Refs::TierShared(t), x: Box::new(m2.at(Buf::TierMidBlocks(t))) });
        assert(dataflow::step(m2, ops[2]) == m3) by {
            reveal(dataflow::step);
        }
        assert(dataflow::run(ops, 0, m) == m3) by {
            reveal_with_fuel(dataflow::run, 4);
        }
    } else {
        let ops = graph::tier_shared_ops(s, u);
        assert(dataflow::run(ops, 0, m) == m) by {
            reveal_with_fuel(dataflow::run, 1);
        }
    }
}

proof fn lemma_tier(s: &Shape, u: TierUse, bias: bool, m: Mem)
    requires
        m.card == Place::Primary,
    ensures
        ({
            let r = dataflow::run(graph::tier_ops(s, u, bias), 0, m);
            let t = u.tier;
            &&& r.card == Place::Primary
            &&& u.routed ==> r.at(Buf::TierOut(t)) == tier_sum(
                s,
                bias,
                t,
                m.at(Buf::Weights),
                m.at(Buf::Normed),
            )
            &&& u.shared ==> r.at(Buf::TierSharedOut(t)) == tier_shared_sum(
                s,
                t,
                m.at(Buf::Weights),
                m.at(Buf::Normed),
            )
            &&& !u.routed ==> r.at(Buf::TierOut(t)) == m.at(Buf::TierOut(t))
            &&& !u.shared ==> r.at(Buf::TierSharedOut(t)) == m.at(Buf::TierSharedOut(t))
            &&& dataflow::same_but(
                r,
                m,
                set![
                    Cell::At(Buf::TierIn(t)),
                    Cell::At(Buf::TierWeights(t)),
                    Cell::At(Buf::TierBlocks(t)),
                    Cell::At(Buf::TierMid(t)),
                    Cell::At(Buf::TierMidBlocks(t)),
                    Cell::At(Buf::TierOut(t)),
                    Cell::At(Buf::TierSharedOut(t)),
                ],
            )
        }),
{
    let a = graph::tier_in_ops(s, u);
    let b = graph::tier_routed_ops(s, u, bias);
    let c = graph::tier_shared_ops(s, u);
    let d = seq![Op::On(Place::Primary)];
    dataflow::lists_run_in_order(a, b, m);
    dataflow::lists_run_in_order(a + b, c, m);
    dataflow::lists_run_in_order(a + b + c, d, m);
    let m1 = dataflow::run(a, 0, m);
    let m2 = dataflow::run(a + b, 0, m);
    let m3 = dataflow::run(a + b + c, 0, m);
    lemma_tier_in(s, u, m);
    lemma_tier_routed(s, u, bias, m1);
    lemma_tier_shared(s, u, m2);
    assert(dataflow::step(m3, d[0]) == Mem { card: Place::Primary, ..m3 }) by {
        reveal(dataflow::step);
    }
    assert(dataflow::run(d, 0, m3) == dataflow::step(m3, d[0])) by {
        reveal_with_fuel(dataflow::run, 2);
    }
}

/// The first `n` tiers have left their sums.
pub open spec fn tiers_done(
    s: &Shape,
    bias: bool,
    us: Seq<TierUse>,
    n: int,
    weights: Val,
    x: Val,
    r: Mem,
) -> bool {
    forall|i: int|
        0 <= i < n ==> {
            let t = (#[trigger] us[i]).tier;
            &&& us[i].routed ==> r.at(Buf::TierOut(t)) == tier_sum(s, bias, t, weights, x)
            &&& us[i].shared ==> r.at(Buf::TierSharedOut(t)) == tier_shared_sum(s, t, weights, x)
        }
}

/// Nothing but the tiers' own buffers differs.
pub open spec fn same_but_tiers(a: Mem, b: Mem) -> bool {
    forall|c: Cell| !of_tiers(c) ==> #[trigger] a.cells[c] == b.cells[c]
}

proof fn lemma_tiers(s: &Shape, us: Seq<TierUse>, bias: bool, n: int, m: Mem)
    requires
        0 <= n <= us.len(),
        m.card == Place::Primary,
    ensures
        ({
            let r = dataflow::run(graph::tiers_ops(s, us, bias, n), 0, m);
            &&& r.card == Place::Primary
            &&& tiers_done(s, bias, us, n, m.at(Buf::Weights), m.at(Buf::Normed), r)
            &&& same_but_tiers(r, m)
        }),
    decreases n,
{
    let ops = graph::tiers_ops(s, us, bias, n);
    if n == 0 {
        assert(dataflow::run(ops, 0, m) == m) by {
            reveal_with_fuel(dataflow::run, 1);
        }
    } else {
        let a = graph::tiers_ops(s, us, bias, n - 1);
        let u = us[n - 1];
        let b = graph::tier_ops(s, u, bias);
        lemma_tiers(s, us, bias, n - 1, m);
        dataflow::lists_run_in_order(a, b, m);
        let m1 = dataflow::run(a, 0, m);
        assert(m1.at(Buf::Weights) == m.at(Buf::Weights));
        assert(m1.at(Buf::Normed) == m.at(Buf::Normed));
        lemma_tier(s, u, bias, m1);
        let r = dataflow::run(ops, 0, m);
        assert forall|i: int| 0 <= i < n implies ({
            let t = (#[trigger] us[i]).tier;
            &&& us[i].routed ==> r.at(Buf::TierOut(t)) == tier_sum(
                s,
                bias,
                t,
                m.at(Buf::Weights),
                m.at(Buf::Normed),
            )
            &&& us[i].shared ==> r.at(Buf::TierSharedOut(t)) == tier_shared_sum(
                s,
                t,
                m.at(Buf::Weights),
                m.at(Buf::Normed),
            )
        }) by {
            if i < n - 1 {
                let t = us[i].tier;
                if t != u.tier {
                    assert(r.cells[Cell::At(Buf::TierOut(t))] == m1.cells[Cell::At(
                        Buf::TierOut(t),
                    )]);
                    assert(r.cells[Cell::At(Buf::TierSharedOut(t))] == m1.cells[Cell::At(
                        Buf::TierSharedOut(t),
                    )]);
                }
            }
        }
        assert forall|c: Cell| !of_tiers(c) implies #[trigger] r.cells[c] == m.cells[c] by {
            assert(r.cells[c] == m1.cells[c]);
        }
    }
}

proof fn lemma_check(s: &Shape, e: MoeFacts, m: Mem)
    requires
        m.card == Place::Primary,
    ensures
        ({
            let r = dataflow::run(graph::check_ops(s, e), 0, m);
            &&& r.card == m.card
            &&& e.check ==> r.cells[Cell::Seen] == experts(s, m.card, Refs::Lane, m.at(Buf::Weights), m.at(Buf::Blocks))
            &&& dataflow::same_but(r, m, near_cells())
        }),
{
    if e.check {
        let ops = graph::check_ops(s, e);
        let m1 = m;
        assert(dataflow::step(m, ops[0]) == m1) by {
            reveal(dataflow::step);
        }
        let m2 = m1.put(Buf::ExpertMid, Val::Mid { on: m1.card, refs: Refs::Lane, grouped: false, weights: Box::new(m1.at(Buf::Weights)), x: Box::new(m1.at(Buf::Blocks)) });
        assert(dataflow::step(m1, ops[1]) == m2) by {
            reveal(dataflow::step);
        }
        let m3 = m2.put(Buf::MidBlocks, dataflow::packed(Width { n: s.n_expert_used, each: s.n_ff_exp }, m2.at(Buf::ExpertMid)));
        assert(dataflow::step(m2, ops[2]) == m3) by {
            reveal(dataflow::step);
        }
        let m4 = m3.put(Buf::MoeOut, Val::ExpertOut { on: m3.card, refs: Refs::Lane, x: Box::new(m3.at(Buf::MidBlocks)) });
        assert(dataflow::step(m3, ops[3]) == m4) by {
            reveal(dataflow::step);
        }
        let m5 = m4.keep(Cell::Seen, m4.at(Buf::MoeOut));
        assert(dataflow::step(m4, ops[4]) == m5) by {
            reveal(dataflow::step);
        }
        let m6 = m5;
        assert(dataflow::step(m5, ops[5]) == m6) by {
            reveal(dataflow::step);
        }
        assert(dataflow::run(ops, 0, m) == m6) by {
            reveal_with_fuel(dataflow::run, 7);
        }
    } else {
        let ops = graph::check_ops(s, e);
        assert(dataflow::run(ops, 0, m) == m) by {
            reveal_with_fuel(dataflow::run, 1);
        }
    }
}

proof fn lemma_routed(s: &Shape, e: MoeFacts, m: Mem)
    requires
        m.card == Place::Primary,
    ensures
        ({
            let r = dataflow::run(graph::routed_ops(s, e), 0, m);
            &&& r.card == m.card
            &&& r.at(Buf::MoeOut) == near_sum(s, MoeFacts { shared_pass: false, ..e }, m.at(Buf::Weights), m.at(Buf::Blocks))
            &&& r.cells[Cell::Seen] == m.cells[Cell::Seen]
            &&& dataflow::same_but(r, m, near_cells())
        }),
{
    if e.grouped && e.bias {
        let ops = graph::routed_ops(s, e);
        let m1 = m.put(Buf::ExpertMid, Val::Mid { on: m.card, refs: Refs::Routed, grouped: true, weights: Box::new(m.at(Buf::Weights)), x: Box::new(m.at(Buf::Blocks)) });
        assert(dataflow::step(m, ops[0]) == m1) by {
            reveal(dataflow::step);
        }
        let m2 = m1.put(Buf::MidBlocks, dataflow::packed(Width { n: s.n_expert_used, each: s.n_ff_exp }, m1.at(Buf::ExpertMid)));
        assert(dataflow::step(m1, ops[1]) == m2) by {
            reveal(dataflow::step);
        }
        let m3 = m2.put(Buf::SlotSums, Val::Zeros);
        assert(dataflow::step(m2, ops[2]) == m3) by {
            reveal(dataflow::step);
        }
        let m4 = m3.put(Buf::SlotSums, Val::SlotRows { on: m3.card, refs: Refs::Routed, over: Box::new(m3.at(Buf::SlotSums)), x: Box::new(m3.at(Buf::MidBlocks)) });
        assert(dataflow::step(m3, ops[3]) == m4) by {
            reveal(dataflow::step);
        }
        let m5 = m4.put(Buf::MoeOut, Val::SlotSum { x: Box::new(m4.at(Buf::SlotSums)) });
        assert(dataflow::step(m4, ops[4]) == m5) by {
            reveal(dataflow::step);
        }
        let m6 = m5.put(Buf::MoeOut, Val::ExpertBiased { on: m5.card, refs: Refs::Routed, weights: Box::new(m5.at(Buf::Weights)), x: Box::new(m5.at(Buf::MoeOut)) });
        assert(dataflow::step(m5, ops[5]) == m6) by {
            reveal(dataflow::step);
        }
        assert(dataflow::run(ops, 0, m) == m6) by {
            reveal_with_fuel(dataflow::run, 7);
        }
    } else if e.grouped {
        let ops = graph::routed_ops(s, e);
        let m1 = m.put(Buf::ExpertMid, Val::Mid { on: m.card, refs: Refs::Routed, grouped: true, weights: Box::new(m.at(Buf::Weights)), x: Box::new(m.at(Buf::Blocks)) });
        assert(dataflow::step(m, ops[0]) == m1) by {
            reveal(dataflow::step);
        }
        let m2 = m1.put(Buf::MidBlocks, dataflow::packed(Width { n: s.n_expert_used, each: s.n_ff_exp }, m1.at(Buf::ExpertMid)));
        assert(dataflow::step(m1, ops[1]) == m2) by {
            reveal(dataflow::step);
        }
        let m3 = m2.put(Buf::SlotSums, Val::Zeros);
        assert(dataflow::step(m2, ops[2]) == m3) by {
            reveal(dataflow::step);
        }
        let m4 = m3.put(Buf::SlotSums, Val::SlotRows { on: m3.card, refs: Refs::Routed, over: Box::new(m3.at(Buf::SlotSums)), x: Box::new(m3.at(Buf::MidBlocks)) });
        assert(dataflow::step(m3, ops[3]) == m4) by {
            reveal(dataflow::step);
        }
        let m5 = m4.put(Buf::MoeOut, Val::SlotSum { x: Box::new(m4.at(Buf::SlotSums)) });
        assert(dataflow::step(m4, ops[4]) == m5) by {
            reveal(dataflow::step);
        }
        assert(dataflow::run(ops, 0, m) == m5) by {
            reveal_with_fuel(dataflow::run, 6);
        }
    } else if e.bias {
        let ops = graph::routed_ops(s, e);
        let m1 = m.put(Buf::ExpertMid, Val::Mid { on: m.card, refs: Refs::Routed, grouped: false, weights: Box::new(m.at(Buf::Weights)), x: Box::new(m.at(Buf::Blocks)) });
        assert(dataflow::step(m, ops[0]) == m1) by {
            reveal(dataflow::step);
        }
        let m2 = m1.put(Buf::MidBlocks, dataflow::packed(Width { n: s.n_expert_used, each: s.n_ff_exp }, m1.at(Buf::ExpertMid)));
        assert(dataflow::step(m1, ops[1]) == m2) by {
            reveal(dataflow::step);
        }
        let m3 = m2.put(Buf::MoeOut, Val::ExpertOut { on: m2.card, refs: Refs::Routed, x: Box::new(m2.at(Buf::MidBlocks)) });
        assert(dataflow::step(m2, ops[2]) == m3) by {
            reveal(dataflow::step);
        }
        let m4 = m3.put(Buf::MoeOut, Val::ExpertBiased { on: m3.card, refs: Refs::Routed, weights: Box::new(m3.at(Buf::Weights)), x: Box::new(m3.at(Buf::MoeOut)) });
        assert(dataflow::step(m3, ops[3]) == m4) by {
            reveal(dataflow::step);
        }
        assert(dataflow::run(ops, 0, m) == m4) by {
            reveal_with_fuel(dataflow::run, 5);
        }
    } else {
        let ops = graph::routed_ops(s, e);
        let m1 = m.put(Buf::ExpertMid, Val::Mid { on: m.card, refs: Refs::Routed, grouped: false, weights: Box::new(m.at(Buf::Weights)), x: Box::new(m.at(Buf::Blocks)) });
        assert(dataflow::step(m, ops[0]) == m1) by {
            reveal(dataflow::step);
        }
        let m2 = m1.put(Buf::MidBlocks, dataflow::packed(Width { n: s.n_expert_used, each: s.n_ff_exp }, m1.at(Buf::ExpertMid)));
        assert(dataflow::step(m1, ops[1]) == m2) by {
            reveal(dataflow::step);
        }
        let m3 = m2.put(Buf::MoeOut, Val::ExpertOut { on: m2.card, refs: Refs::Routed, x: Box::new(m2.at(Buf::MidBlocks)) });
        assert(dataflow::step(m2, ops[2]) == m3) by {
            reveal(dataflow::step);
        }
        assert(dataflow::run(ops, 0, m) == m3) by {
            reveal_with_fuel(dataflow::run, 4);
        }
    }
}

proof fn lemma_bank(s: &Shape, e: MoeFacts, m: Mem)
    requires
        m.card == Place::Primary,
    ensures
        ({
            let r = dataflow::run(graph::bank_ops(s, e), 0, m);
            &&& r.card == m.card
            &&& r.at(Buf::MoeOut) == (if e.shared_pass { dataflow::sum(m.at(Buf::MoeOut), experts(s, m.card, Refs::Shared, m.at(Buf::Weights), m.at(Buf::Blocks))) } else { m.at(Buf::MoeOut) })
            &&& r.cells[Cell::Seen] == m.cells[Cell::Seen]
            &&& dataflow::same_but(r, m, near_cells())
        }),
{
    if e.shared_pass {
        let ops = graph::bank_ops(s, e);
        let m1 = m;
        assert(dataflow::step(m, ops[0]) == m1) by {
            reveal(dataflow::step);
        }
        let m2 = m1.put(Buf::ExpertMid, Val::Mid { on: m1.card, refs: Refs::Shared, grouped: false, weights: Box::new(m1.at(Buf::Weights)), x: Box::new(m1.at(Buf::Blocks)) });
        assert(dataflow::step(m1, ops[1]) == m2) by {
            reveal(dataflow::step);
        }
        let m3 = m2.put(Buf::MidBlocks, dataflow::packed(Width { n: s.n_expert_used, each: s.n_ff_exp }, m2.at(Buf::ExpertMid)));
        assert(dataflow::step(m2, ops[2]) == m3) by {
            reveal(dataflow::step);
        }
        let m4 = m3.put(Buf::FfnOut, Val::ExpertOut { on: m3.card, refs: Refs::Shared, x: Box::new(m3.at(Buf::MidBlocks)) });
        assert(dataflow::step(m3, ops[3]) == m4) by {
            reveal(dataflow::step);
        }
        let m5 = m4.put(Buf::MoeOut, dataflow::sum(m4.at(Buf::MoeOut), m4.at(Buf::FfnOut)));
        assert(dataflow::step(m4, ops[4]) == m5) by {
            reveal(dataflow::step);
        }
        assert(dataflow::run(ops, 0, m) == m5) by {
            reveal_with_fuel(dataflow::run, 6);
        }
    } else {
        let ops = graph::bank_ops(s, e);
        assert(dataflow::run(ops, 0, m) == m) by {
            reveal_with_fuel(dataflow::run, 1);
        }
    }
}

proof fn lemma_fetch(s: &Shape, t: usize, src: Buf, m: Mem)
    requires
        m.card == Place::Primary,
        src == Buf::TierOut(t) || src == Buf::TierSharedOut(t),
    ensures
        ({
            let r = dataflow::run(graph::fetch_ops(s, t, src), 0, m);
            &&& r.card == Place::Primary
            &&& r.at(Buf::MoeOut) == dataflow::sum(m.at(Buf::MoeOut), dataflow::shifted(dataflow::rows_of(s.n_embd), m.at(src)))
            &&& dataflow::same_but(r, m, set![Cell::At(Buf::Partial), Cell::At(Buf::MoeOut)])
        }),
{
    let ops = graph::fetch_ops(s, t, src);
    let m1 = Mem { card: Place::Tier(t), ..m };
    assert(dataflow::step(m, ops[0]) == m1) by {
        reveal(dataflow::step);
    }
    let m2 = m1.put(Buf::Partial, dataflow::shifted(dataflow::rows_of(s.n_embd), m1.at(src)));
    assert(dataflow::step(m1, ops[1]) == m2) by {
        reveal(dataflow::step);
    }
    let m3 = Mem { card: Place::Primary, ..m2 };
    assert(dataflow::step(m2, ops[2]) == m3) by {
        reveal(dataflow::step);
    }
    let m4 = m3.put(Buf::MoeOut, dataflow::sum(m3.at(Buf::MoeOut), m3.at(Buf::Partial)));
    assert(dataflow::step(m3, ops[3]) == m4) by {
        reveal(dataflow::step);
    }
    assert(dataflow::run(ops, 0, m) == m4) by {
        reveal_with_fuel(dataflow::run, 5);
    }
}

proof fn lemma_gather(s: &Shape, u: TierUse, m: Mem)
    requires
        m.card == Place::Primary,
    ensures
        ({
            let r = dataflow::run(graph::gather_ops(s, u), 0, m);
            let a = if u.routed {
                dataflow::sum(m.at(Buf::MoeOut), dataflow::shifted(dataflow::rows_of(s.n_embd), m.at(Buf::TierOut(u.tier))))
            } else {
                m.at(Buf::MoeOut)
            };
            &&& r.card == Place::Primary
            &&& r.at(Buf::MoeOut) == (if u.shared {
                dataflow::sum(a, dataflow::shifted(dataflow::rows_of(s.n_embd), m.at(Buf::TierSharedOut(u.tier))))
            } else {
                a
            })
            &&& dataflow::same_but(r, m, set![Cell::At(Buf::Partial), Cell::At(Buf::MoeOut)])
        }),
{
    let a = if u.routed {
        graph::fetch_ops(s, u.tier, Buf::TierOut(u.tier))
    } else {
        Seq::empty()
    };
    let b = if u.shared {
        graph::fetch_ops(s, u.tier, Buf::TierSharedOut(u.tier))
    } else {
        Seq::empty()
    };
    dataflow::lists_run_in_order(a, b, m);
    let m1 = dataflow::run(a, 0, m);
    if u.routed {
        lemma_fetch(s, u.tier, Buf::TierOut(u.tier), m);
    } else {
        assert(m1 == m) by {
            reveal_with_fuel(dataflow::run, 1);
        }
    }
    if u.shared {
        lemma_fetch(s, u.tier, Buf::TierSharedOut(u.tier), m1);
    } else {
        assert(dataflow::run(b, 0, m1) == m1) by {
            reveal_with_fuel(dataflow::run, 1);
        }
    }
}

proof fn lemma_gathers(
    s: &Shape,
    us: Seq<TierUse>,
    bias: bool,
    n: int,
    weights: Val,
    x: Val,
    m: Mem,
)
    requires
        0 <= n <= us.len(),
        m.card == Place::Primary,
        tiers_done(s, bias, us, n, weights, x, m),
    ensures
        ({
            let r = dataflow::run(graph::gathers_ops(s, us, n), 0, m);
            &&& r.card == Place::Primary
            &&& r.at(Buf::MoeOut) == with_tiers(s, bias, us, n, weights, x, m.at(Buf::MoeOut))
            &&& dataflow::same_but(r, m, set![Cell::At(Buf::Partial), Cell::At(Buf::MoeOut)])
        }),
    decreases n,
{
    let ops = graph::gathers_ops(s, us, n);
    if n == 0 {
        assert(dataflow::run(ops, 0, m) == m) by {
            reveal_with_fuel(dataflow::run, 1);
        }
    } else {
        let a = graph::gathers_ops(s, us, n - 1);
        let u = us[n - 1];
        lemma_gathers(s, us, bias, n - 1, weights, x, m);
        dataflow::lists_run_in_order(a, graph::gather_ops(s, u), m);
        lemma_gather(s, u, dataflow::run(a, 0, m));
    }
}

proof fn lemma_lanes(e: MoeFacts, m: Mem)
    ensures
        ({
            let r = dataflow::run(graph::lane_ops(e), 0, m);
            &&& r.card == m.card
            &&& r.at(Buf::MoeOut) == (if e.lanes { dataflow::sum(m.at(Buf::MoeOut), Val::Lanes) } else { m.at(Buf::MoeOut) })
            &&& dataflow::same_but(r, m, set![Cell::At(Buf::LaneOut), Cell::At(Buf::MoeOut)])
        }),
{
    if e.lanes {
        let ops = graph::lane_ops(e);
        let m1 = m.put(Buf::LaneOut, Val::Lanes);
        assert(dataflow::step(m, ops[0]) == m1) by {
            reveal(dataflow::step);
        }
        let m2 = m1.put(Buf::MoeOut, dataflow::sum(m1.at(Buf::MoeOut), m1.at(Buf::LaneOut)));
        assert(dataflow::step(m1, ops[1]) == m2) by {
            reveal(dataflow::step);
        }
        assert(dataflow::run(ops, 0, m) == m2) by {
            reveal_with_fuel(dataflow::run, 3);
        }
    } else {
        let ops = graph::lane_ops(e);
        assert(dataflow::run(ops, 0, m) == m) by {
            reveal_with_fuel(dataflow::run, 1);
        }
    }
}

proof fn lemma_finish(s: &Shape, f: FfnFacts, m: Mem)
    requires
        m.card == Place::Primary,
    ensures
        ({
            let r = dataflow::run(graph::finish_ops(s, f), 0, m);
            &&& r.card == m.card
            &&& r.at(Buf::FfnOut) == dataflow::maybe(f.sandwich, m.card, Weight::PostFfnNorm, How::NormIn, dataflow::sum(dataflow::maybe(f.sandwich, m.card, Weight::PostRoutedNorm, How::NormIn, m.at(Buf::MoeOut)), m.at(Buf::SharedOut)))
            &&& dataflow::same_but(r, m, set![Cell::At(Buf::MoeOut), Cell::At(Buf::FfnOut)])
        }),
{
    if f.sandwich {
        let ops = graph::finish_ops(s, f);
        let m1 = m.made(Buf::MoeOut, Weight::PostRoutedNorm, How::NormIn, Buf::MoeOut);
        assert(dataflow::step(m, ops[0]) == m1) by {
            reveal(dataflow::step);
        }
        let m2 = m1.put(Buf::FfnOut, dataflow::sum(m1.at(Buf::MoeOut), m1.at(Buf::SharedOut)));
        assert(dataflow::step(m1, ops[1]) == m2) by {
            reveal(dataflow::step);
        }
        let m3 = m2.made(Buf::FfnOut, Weight::PostFfnNorm, How::NormIn, Buf::FfnOut);
        assert(dataflow::step(m2, ops[2]) == m3) by {
            reveal(dataflow::step);
        }
        assert(dataflow::run(ops, 0, m) == m3) by {
            reveal_with_fuel(dataflow::run, 4);
        }
    } else {
        let ops = graph::finish_ops(s, f);
        let m1 = m.put(Buf::FfnOut, dataflow::sum(m.at(Buf::MoeOut), m.at(Buf::SharedOut)));
        assert(dataflow::step(m, ops[0]) == m1) by {
            reveal(dataflow::step);
        }
        assert(dataflow::run(ops, 0, m) == m1) by {
            reveal_with_fuel(dataflow::run, 2);
        }
    }
}

proof fn lemma_stream(f: FfnFacts, m: Mem)
    ensures
        ({
            let r = dataflow::run(graph::stream_ops(f), 0, m);
            &&& r.card == m.card
            &&& r.at(Buf::Cur) == dataflow::scaled(
                f.out_scale,
                dataflow::sum(m.at(Buf::AfterAttn), m.at(Buf::FfnOut)),
            )
            &&& dataflow::same_but(r, m, set![Cell::At(Buf::Cur)])
        }),
{
    let a = seq![Op::Add { dst: Buf::Cur, a: Buf::AfterAttn, b: Buf::FfnOut }];
    let b = graph::scale_ops(Buf::Cur, f.out_scale);
    dataflow::lists_run_in_order(a, b, m);
    let m1 = m.put(Buf::Cur, dataflow::sum(m.at(Buf::AfterAttn), m.at(Buf::FfnOut)));
    assert(dataflow::step(m, a[0]) == m1) by {
        reveal(dataflow::step);
    }
    assert(dataflow::run(a, 0, m) == m1) by {
        reveal_with_fuel(dataflow::run, 2);
    }
    dataflow::lemma_scale(Buf::Cur, f.out_scale, m1);
}

/// What a routed layer computes once its experts are resolved. The stream
/// becomes what it was behind attention, plus the routed experts' sum and
/// the shared expert's output, each once; and what is read back to compare
/// with the lanes is the lanes' own slots, run on the card.
pub proof fn moe_after_adds_the_experts(
    s: &Shape,
    us: Seq<TierUse>,
    e: MoeFacts,
    f: FfnFacts,
    m: Mem,
)
    requires
        m.card == Place::Primary,
    ensures
        ({
            let r = dataflow::run(graph::moe_after_ops(s, us, e, f), 0, m);
            let routed = routed_sum(
                s,
                us,
                e,
                m.at(Buf::Weights),
                m.at(Buf::Normed),
                m.at(Buf::Blocks),
            );
            &&& r.card == Place::Primary
            &&& r.at(Buf::Cur) == behind_experts(
                s,
                f,
                m.at(Buf::AfterAttn),
                routed,
                m.at(Buf::SharedOut),
            )
            &&& e.check ==> r.cells[Cell::Seen] == experts(
                s,
                Place::Primary,
                Refs::Lane,
                m.at(Buf::Weights),
                m.at(Buf::Blocks),
            )
        }),
{
    let w = m.at(Buf::Weights);
    let x = m.at(Buf::Normed);
    let n = us.len() as int;
    let a0 = seq![Op::PutRefs(Refs::Routed)];
    let a1 = a0 + graph::tiers_ops(s, us, e.bias, n);
    let a2 = a1 + graph::check_ops(s, e);
    let a3 = a2 + graph::routed_ops(s, e);
    let a4 = a3 + graph::bank_ops(s, e);
    let a5 = a4 + graph::gathers_ops(s, us, n);
    let a6 = a5 + graph::lane_ops(e);
    let a7 = a6 + graph::finish_ops(s, f);
    let a8 = a7 + graph::mlp_conv_ops(s, f.conv);
    assert(dataflow::step(m, a0[0]) == m) by {
        reveal(dataflow::step);
    }
    assert(dataflow::run(a0, 0, m) == m) by {
        reveal_with_fuel(dataflow::run, 2);
    }
    dataflow::lists_run_in_order(a0, graph::tiers_ops(s, us, e.bias, n), m);
    dataflow::lists_run_in_order(a1, graph::check_ops(s, e), m);
    dataflow::lists_run_in_order(a2, graph::routed_ops(s, e), m);
    dataflow::lists_run_in_order(a3, graph::bank_ops(s, e), m);
    dataflow::lists_run_in_order(a4, graph::gathers_ops(s, us, n), m);
    dataflow::lists_run_in_order(a5, graph::lane_ops(e), m);
    dataflow::lists_run_in_order(a6, graph::finish_ops(s, f), m);
    dataflow::lists_run_in_order(a7, graph::mlp_conv_ops(s, f.conv), m);
    dataflow::lists_run_in_order(a8, graph::stream_ops(f), m);
    let m1 = dataflow::run(a1, 0, m);
    let m2 = dataflow::run(a2, 0, m);
    let m3 = dataflow::run(a3, 0, m);
    let m4 = dataflow::run(a4, 0, m);
    lemma_tiers(s, us, e.bias, n, m);
    lemma_check(s, e, m1);
    lemma_routed(s, e, m2);
    lemma_bank(s, e, m3);
    assert(tiers_done(s, e.bias, us, n, w, x, m4)) by {
        assert forall|c: Cell| of_tiers(c) implies #[trigger] m4.cells[c] == m1.cells[c] by {
            assert(m4.cells[c] == m3.cells[c]);
            assert(m3.cells[c] == m2.cells[c]);
            assert(m2.cells[c] == m1.cells[c]);
        }
        assert forall|i: int| 0 <= i < n implies ({
            let t = (#[trigger] us[i]).tier;
            &&& us[i].routed ==> m4.at(Buf::TierOut(t)) == tier_sum(s, e.bias, t, w, x)
            &&& us[i].shared ==> m4.at(Buf::TierSharedOut(t)) == tier_shared_sum(s, t, w, x)
        }) by {
            let t = us[i].tier;
            assert(of_tiers(Cell::At(Buf::TierOut(t))));
            assert(of_tiers(Cell::At(Buf::TierSharedOut(t))));
        }
    }
    lemma_gathers(s, us, e.bias, n, w, x, m4);
    lemma_lanes(e, dataflow::run(a5, 0, m));
    lemma_finish(s, f, dataflow::run(a6, 0, m));
    dataflow::lemma_mlp_conv(s, f.conv, dataflow::run(a7, 0, m));
    lemma_stream(f, dataflow::run(a8, 0, m));
}

/// The router's logits: of the feed-forward's input, or of the stream under
/// the router's own norm.
pub open spec fn router_logits(s: &Shape, r: RouterPlan, f: FfnFacts, after: Val, x: Val) -> Val {
    let pr = Place::Primary;
    let by = if f.sandwich {
        dataflow::applied(pr, Weight::RouterNorm, How::Norm(dataflow::rows_of(s.n_embd)), after)
    } else {
        x
    };
    dataflow::maybe(
        f.router_bias,
        pr,
        Weight::RouterBias,
        How::Bias(dataflow::rows_of(s.n_expert)),
        dataflow::applied(pr, Weight::Router, How::Rows { from: s.n_embd, to: r.logits, rows: 1 }, by),
    )
}

/// The shared expert's output; zero without one.
pub open spec fn shared_sum(s: &Shape, f: FfnFacts, x: Val) -> Val {
    match f.shared {
        Some(w) => dataflow::maybe(
            f.sandwich,
            Place::Primary,
            Weight::PostSharedNorm,
            How::NormIn,
            dataflow::gated_ffn(s, w, Weight::SharedGate, Weight::SharedUp, Weight::SharedDown, x),
        ),
        None => Val::Zeros,
    }
}

/// The routed experts' input: the feed-forward's, or the stream under their
/// own norm.
pub open spec fn experts_in(s: &Shape, f: FfnFacts, after: Val, x: Val) -> Val {
    if f.sandwich {
        dataflow::applied(Place::Primary, Weight::PreRoutedNorm, How::Norm(dataflow::rows_of(s.n_embd)), after)
    } else {
        x
    }
}

proof fn lemma_router(s: &Shape, r: RouterPlan, f: FfnFacts, m: Mem)
    requires
        m.card == Place::Primary,
    ensures
        ({
            let t = dataflow::run(graph::router_ops(s, r, f), 0, m);
            let logits = Box::new(
                router_logits(s, r, f, m.at(Buf::AfterAttn), m.at(Buf::Normed)),
            );
            &&& t.card == m.card
            &&& t.at(Buf::Picks) == (Val::Picked { logits })
            &&& t.at(Buf::Weights) == (if f.down_scale {
                Val::ScaledWeights {
                    picks: Box::new(Val::Picked { logits }),
                    weights: Box::new(Val::PickWeights { logits }),
                }
            } else {
                Val::PickWeights { logits }
            })
            &&& dataflow::same_but(
                t,
                m,
                set![
                    Cell::At(Buf::AttnOut),
                    Cell::At(Buf::RouterLogits),
                    Cell::At(Buf::Picks),
                    Cell::At(Buf::Weights),
                ],
            )
        }),
{
    let a = if f.sandwich {
        seq![
            Op::Norm {
                dst: Buf::AttnOut,
                src: Buf::AfterAttn,
                w: Weight::RouterNorm,
                width: dataflow::rows_of(s.n_embd),
            },
            Op::MulF {
                dst: Buf::RouterLogits,
                w: Weight::Router,
                src: Buf::AttnOut,
                from: s.n_embd,
                to: r.logits,
                rows: 1,
            },
        ]
    } else {
        seq![
            Op::MulF {
                dst: Buf::RouterLogits,
                w: Weight::Router,
                src: Buf::Normed,
                from: s.n_embd,
                to: r.logits,
                rows: 1,
            },
        ]
    };
    let b = if f.router_bias {
        seq![Op::Bias { buf: Buf::RouterLogits, w: Weight::RouterBias, width: dataflow::rows_of(s.n_expert) }]
    } else {
        Seq::empty()
    };
    let c = seq![Op::Select { pred: false }];
    let d = if f.down_scale {
        seq![Op::ScaleWeights]
    } else {
        Seq::empty()
    };
    assert(graph::router_ops(s, r, f) == a + b + c + d);
    dataflow::lists_run_in_order(a, b, m);
    dataflow::lists_run_in_order(a + b, c, m);
    dataflow::lists_run_in_order(a + b + c, d, m);
    let m1 = dataflow::run(a, 0, m);
    let m2 = dataflow::run(b, 0, m1);
    let m3 = dataflow::run(c, 0, m2);
    let by = if f.sandwich {
        dataflow::applied(m.card, Weight::RouterNorm, How::Norm(dataflow::rows_of(s.n_embd)), m.at(Buf::AfterAttn))
    } else {
        m.at(Buf::Normed)
    };
    assert(m1.card == m.card && m1.at(Buf::RouterLogits) == dataflow::applied(
        m.card,
        Weight::Router,
        How::Rows { from: s.n_embd, to: r.logits, rows: 1 },
        by,
    ) && dataflow::same_but(m1, m, set![Cell::At(Buf::AttnOut), Cell::At(Buf::RouterLogits)])) by {
        reveal(dataflow::step);
        reveal_with_fuel(dataflow::run, 3);
    }
    assert(m2.card == m.card && m2.at(Buf::RouterLogits) == dataflow::maybe(
        f.router_bias,
        m.card,
        Weight::RouterBias,
        How::Bias(dataflow::rows_of(s.n_expert)),
        m1.at(Buf::RouterLogits),
    ) && dataflow::same_but(m2, m1, set![Cell::At(Buf::RouterLogits)])) by {
        reveal(dataflow::step);
        reveal_with_fuel(dataflow::run, 2);
    }
    let logits = Box::new(m2.at(Buf::RouterLogits));
    assert(m3 == m2.put(Buf::Picks, Val::Picked { logits }).put(
        Buf::Weights,
        Val::PickWeights { logits },
    )) by {
        reveal(dataflow::step);
        reveal_with_fuel(dataflow::run, 2);
    }
    let m4 = dataflow::run(d, 0, m3);
    if f.down_scale {
        assert(m4 == m3.put(
            Buf::Weights,
            Val::ScaledWeights {
                picks: Box::new(m3.at(Buf::Picks)),
                weights: Box::new(m3.at(Buf::Weights)),
            },
        )) by {
            reveal(dataflow::step);
            reveal_with_fuel(dataflow::run, 2);
        }
    } else {
        assert(m4 == m3) by {
            reveal_with_fuel(dataflow::run, 1);
        }
    }
}

proof fn lemma_predict(s: &Shape, logits: u32, on: bool, m: Mem)
    requires
        m.card == Place::Primary,
    ensures
        ({
            let r = dataflow::run(graph::predict_ops(s, logits, on), 0, m);
            &&& r.card == m.card
            &&& on ==> r.at(Buf::PredPicks) == (Val::Picked { logits: Box::new(dataflow::applied(m.card, Weight::NextRouter, How::Rows { from: s.n_embd, to: logits, rows: 1 }, m.at(Buf::Normed))) })
            &&& dataflow::same_but(r, m, set![Cell::At(Buf::PredLogits), Cell::At(Buf::PredPicks), Cell::At(Buf::PredWeights)])
        }),
{
    if on {
        let ops = graph::predict_ops(s, logits, on);
        let m1 = m.made(Buf::PredLogits, Weight::NextRouter, How::Rows { from: s.n_embd, to: logits, rows: 1 }, Buf::Normed);
        assert(dataflow::step(m, ops[0]) == m1) by {
            reveal(dataflow::step);
        }
        let m2 = m1.put(Buf::PredPicks, Val::Picked { logits: Box::new(m1.at(Buf::PredLogits)) }).put(Buf::PredWeights, Val::PickWeights { logits: Box::new(m1.at(Buf::PredLogits)) });
        assert(dataflow::step(m1, ops[1]) == m2) by {
            reveal(dataflow::step);
        }
        assert(dataflow::run(ops, 0, m) == m2) by {
            reveal_with_fuel(dataflow::run, 3);
        }
    } else {
        let ops = graph::predict_ops(s, logits, on);
        assert(dataflow::run(ops, 0, m) == m) by {
            reveal_with_fuel(dataflow::run, 1);
        }
    }
}

proof fn lemma_shared(s: &Shape, f: FfnFacts, m: Mem)
    requires
        m.card == Place::Primary,
    ensures
        ({
            let r = dataflow::run(graph::shared_ops(s, f), 0, m);
            &&& r.card == m.card
            &&& r.at(Buf::SharedOut) == shared_sum(s, f, m.at(Buf::Normed))
            &&& dataflow::same_but(
                r,
                m,
                set![
                    Cell::At(Buf::GateAct),
                    Cell::At(Buf::UpAct),
                    Cell::At(Buf::FfnMid),
                    Cell::At(Buf::SharedOut),
                ],
            )
        }),
{
    match f.shared {
        Some(w) => {
            let a = graph::gated_ops(
                s,
                w,
                Buf::SharedOut,
                Weight::SharedGate,
                Weight::SharedUp,
                Weight::SharedDown,
            );
            dataflow::lemma_gated(
                s,
                w,
                Buf::SharedOut,
                Weight::SharedGate,
                Weight::SharedUp,
                Weight::SharedDown,
                m,
            );
            if f.sandwich {
                let b = seq![Op::NormIn { buf: Buf::SharedOut, w: Weight::PostSharedNorm }];
                dataflow::lists_run_in_order(a, b, m);
                let m1 = dataflow::run(a, 0, m);
                let m2 = m1.made(Buf::SharedOut, Weight::PostSharedNorm, How::NormIn, Buf::SharedOut);
                assert(dataflow::step(m1, b[0]) == m2) by {
                    reveal(dataflow::step);
                }
                assert(dataflow::run(b, 0, m1) == m2) by {
                    reveal_with_fuel(dataflow::run, 2);
                }
            }
        },
        None => {
            let ops = graph::shared_ops(s, f);
            let m1 = m.put(Buf::SharedOut, Val::Zeros);
            assert(dataflow::step(m, ops[0]) == m1) by {
                reveal(dataflow::step);
            }
            assert(dataflow::run(ops, 0, m) == m1) by {
                reveal_with_fuel(dataflow::run, 2);
            }
        },
    }
}

proof fn lemma_blocks(s: &Shape, f: FfnFacts, m: Mem)
    requires
        m.card == Place::Primary,
    ensures
        ({
            let r = dataflow::run(graph::block_ops(s, f), 0, m);
            &&& r.card == m.card
            &&& r.at(Buf::Normed) == experts_in(s, f, m.at(Buf::AfterAttn), m.at(Buf::Normed))
            &&& r.at(Buf::Blocks) == dataflow::packed(dataflow::rows_of(s.n_embd), r.at(Buf::Normed))
            &&& dataflow::same_but(r, m, set![Cell::At(Buf::Normed), Cell::At(Buf::Blocks)])
        }),
{
    if f.sandwich {
        let ops = graph::block_ops(s, f);
        let m1 = m.made(Buf::Normed, Weight::PreRoutedNorm, How::Norm(dataflow::rows_of(s.n_embd)), Buf::AfterAttn);
        assert(dataflow::step(m, ops[0]) == m1) by {
            reveal(dataflow::step);
        }
        let m2 = m1.put(Buf::Blocks, dataflow::packed(dataflow::rows_of(s.n_embd), m1.at(Buf::Normed)));
        assert(dataflow::step(m1, ops[1]) == m2) by {
            reveal(dataflow::step);
        }
        assert(dataflow::run(ops, 0, m) == m2) by {
            reveal_with_fuel(dataflow::run, 3);
        }
    } else {
        let ops = graph::block_ops(s, f);
        let m1 = m.put(Buf::Blocks, dataflow::packed(dataflow::rows_of(s.n_embd), m.at(Buf::Normed)));
        assert(dataflow::step(m, ops[0]) == m1) by {
            reveal(dataflow::step);
        }
        assert(dataflow::run(ops, 0, m) == m1) by {
            reveal_with_fuel(dataflow::run, 2);
        }
    }
}

/// What a routed layer computes before its experts are resolved: the picks
/// and their weights from the router's logits, the next layer's picks where
/// they are predicted, the shared expert's output, and the experts' input in
/// rows and in blocks. The stream behind attention stays.
pub proof fn moe_before_feeds_the_experts(s: &Shape, r: RouterPlan, f: FfnFacts, m: Mem)
    requires
        m.card == Place::Primary,
    ensures
        ({
            let t = dataflow::run(graph::moe_before_ops(s, r, f), 0, m);
            let after = m.at(Buf::AfterAttn);
            let x = m.at(Buf::Normed);
            let logits = Box::new(router_logits(s, r, f, after, x));
            &&& t.card == Place::Primary
            &&& t.at(Buf::AfterAttn) == after
            &&& t.at(Buf::Picks) == (Val::Picked { logits })
            &&& t.at(Buf::Weights) == (if f.down_scale {
                Val::ScaledWeights {
                    picks: Box::new(Val::Picked { logits }),
                    weights: Box::new(Val::PickWeights { logits }),
                }
            } else {
                Val::PickWeights { logits }
            })
            &&& f.predict ==> t.at(Buf::PredPicks) == (Val::Picked {
                logits: Box::new(
                    dataflow::applied(
                        Place::Primary,
                        Weight::NextRouter,
                        How::Rows { from: s.n_embd, to: (s.n_expert + r.sink) as u32, rows: 1 },
                        x,
                    ),
                ),
            })
            &&& t.at(Buf::SharedOut) == shared_sum(s, f, x)
            &&& t.at(Buf::Normed) == experts_in(s, f, after, x)
            &&& t.at(Buf::Blocks) == dataflow::packed(dataflow::rows_of(s.n_embd), experts_in(s, f, after, x))
        }),
{
    let e = Seq::<Op>::empty();
    let k = (s.n_expert + r.sink) as u32;
    let a1 = e + graph::router_ops(s, r, f);
    let a2 = a1 + graph::predict_ops(s, k, f.predict);
    let a3 = a2 + graph::shared_ops(s, f);
    dataflow::lists_run_in_order(e, graph::router_ops(s, r, f), m);
    dataflow::lists_run_in_order(a1, graph::predict_ops(s, k, f.predict), m);
    dataflow::lists_run_in_order(a2, graph::shared_ops(s, f), m);
    dataflow::lists_run_in_order(a3, graph::block_ops(s, f), m);
    assert(dataflow::run(e, 0, m) == m) by {
        reveal_with_fuel(dataflow::run, 1);
    }
    lemma_router(s, r, f, m);
    lemma_predict(s, k, f.predict, dataflow::run(a1, 0, m));
    lemma_shared(s, f, dataflow::run(a2, 0, m));
    lemma_blocks(s, f, dataflow::run(a3, 0, m));
}

} // verus!
