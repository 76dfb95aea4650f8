//! What the launches of a draft compute, row by row: a block over the
//! captured rows of the target, and the extra layer's input.

use vstd::prelude::*;

use crate::dflash::{DraftShape, RING_CAP};
use crate::draft_graph;
use crate::draft_graph::{DraftBuf, DraftDims, DraftOp, DraftWeight, HeadFacts};
use crate::graph::Width;

verus! {

/// What a row holds.
pub enum Row {
    /// A captured row of the target.
    Captured { slot: int },
    /// The embedding of a token of the batch.
    Token { row: int },
    Normed { w: DraftWeight, x: Box<Row> },
    Product { w: DraftWeight, inner: Width, outer: Width, x: Box<Row> },
    HeadNormed { w: DraftWeight, heads: u32, x: Box<Row> },
    /// Rotated to a position.
    Turned { heads: u32, at: int, x: Box<Row> },
    Attended { q: Box<Row>, keys: Seq<Row>, values: Seq<Row> },
    Sum { a: Box<Row>, b: Box<Row> },
    Gated { gate: Box<Row>, up: Box<Row> },
    /// The joint product of a token and a hidden row.
    Joined { token: Box<Row>, hidden: Box<Row> },
    Blocks { x: Box<Row> },
    Logits { kq: bool, x: Box<Row> },
    Capped { x: Box<Row> },
    Scaled { x: Box<Row> },
    Masked { x: Box<Row> },
}

/// What each row of each buffer holds.
pub type Rows = spec_fn(DraftBuf, int) -> Row;

/// Rows `at` to `at + n` of a buffer, written.
pub open spec fn written(m: Rows, b: DraftBuf, at: int, n: int, f: spec_fn(int) -> Row) -> Rows {
    |c: DraftBuf, r: int|
        if c == b && at <= r < at + n {
            f(r - at)
        } else {
            m(c, r)
        }
}

/// The rows once a launch has run.
pub open spec fn step(m: Rows, op: DraftOp) -> Rows {
    match op {
        DraftOp::Gather { first, rows } => written(
            m,
            DraftBuf::FeatIn,
            0,
            rows as int,
            |r: int| Row::Captured { slot: (first + r) % RING_CAP as int },
        ),
        DraftOp::Embed { dst, rows } => written(
            m,
            dst,
            0,
            rows as int,
            |r: int| Row::Token { row: r },
        ),
        DraftOp::Norm { dst, src, w, rows } => written(
            m,
            dst,
            0,
            rows as int,
            |r: int| normed(w, m(src, r)),
        ),
        DraftOp::NormIn { buf, w, rows } => written(
            m,
            buf,
            0,
            rows as int,
            |r: int| normed(w, m(buf, r)),
        ),
        DraftOp::Mul { dst, at, w, src, inner, outer, rows } => written(
            m,
            dst,
            at as int,
            rows as int,
            |r: int| product(w, inner, outer, m(src, r)),
        ),
        DraftOp::HeadNorm { buf, w, heads, rows } => written(
            m,
            buf,
            0,
            rows as int,
            |r: int| Row::HeadNormed { w, heads, x: Box::new(m(buf, r)) },
        ),
        DraftOp::Rope { buf, heads, from, rows } => written(
            m,
            buf,
            0,
            rows as int,
            |r: int| Row::Turned { heads, at: from + r, x: Box::new(m(buf, r)) },
        ),
        DraftOp::Attend { rows, keys } => written(
            m,
            DraftBuf::Mixed,
            0,
            rows as int,
            |r: int|
                Row::Attended {
                    q: Box::new(m(DraftBuf::Queries, r)),
                    keys: Seq::new(keys as nat, |i: int| m(DraftBuf::Keys, i)),
                    values: Seq::new(keys as nat, |i: int| m(DraftBuf::Values, i)),
                },
        ),
        DraftOp::AddIn { dst, src, rows } => written(
            m,
            dst,
            0,
            rows as int,
            |r: int| sum(m(dst, r), m(src, r)),
        ),
        DraftOp::Swiglu { rows } => written(
            m,
            DraftBuf::Mid,
            0,
            rows as int,
            |r: int|
                Row::Gated {
                    gate: Box::new(m(DraftBuf::GateAct, r)),
                    up: Box::new(m(DraftBuf::UpAct, r)),
                },
        ),
        DraftOp::CopyRows { dst, to, src, from, rows } => written(
            m,
            dst,
            to as int,
            rows as int,
            |r: int| m(src, from + r),
        ),
        DraftOp::Join { rows } => written(
            m,
            DraftBuf::Stream,
            0,
            rows as int,
            |r: int|
                Row::Joined {
                    token: Box::new(m(DraftBuf::Pairs, 2 * r)),
                    hidden: Box::new(m(DraftBuf::Pairs, 2 * r + 1)),
                },
        ),
        DraftOp::HeadBlocks { rows } => written(
            m,
            DraftBuf::HeadBlocks,
            0,
            rows as int,
            |r: int| Row::Blocks { x: Box::new(m(DraftBuf::Normed, r)) },
        ),
        DraftOp::Head { kq, rows } => if kq {
            written(
                m,
                DraftBuf::Logits,
                0,
                rows as int,
                |r: int| Row::Logits { kq, x: Box::new(m(DraftBuf::HeadBlocks, r)) },
            )
        } else {
            written(
                m,
                DraftBuf::Logits,
                0,
                rows as int,
                |r: int| Row::Logits { kq, x: Box::new(m(DraftBuf::Normed, r)) },
            )
        },
        DraftOp::Softcap { rows } => written(
            m,
            DraftBuf::Logits,
            0,
            rows as int,
            |r: int| Row::Capped { x: Box::new(m(DraftBuf::Logits, r)) },
        ),
        DraftOp::ScaleLogits { rows } => written(
            m,
            DraftBuf::Logits,
            0,
            rows as int,
            |r: int| Row::Scaled { x: Box::new(m(DraftBuf::Logits, r)) },
        ),
        DraftOp::MaskTail { rows } => written(
            m,
            DraftBuf::Logits,
            0,
            rows as int,
            |r: int| Row::Masked { x: Box::new(m(DraftBuf::Logits, r)) },
        ),
    }
}

/// The rows once the launches from `i` on have run.
pub open spec fn run(ops: Seq<DraftOp>, i: int, m: Rows) -> Rows
    decreases ops.len() - i,
{
    if i >= ops.len() {
        m
    } else {
        run(ops, i + 1, step(m, ops[i]))
    }
}

proof fn lemma_tail(a: Seq<DraftOp>, b: Seq<DraftOp>, i: int, m: Rows)
    requires
        0 <= i <= b.len(),
    ensures
        run(a + b, a.len() + i, m) == run(b, i, m),
    decreases b.len() - i,
{
    if i < b.len() {
        assert((a + b)[a.len() + i] == b[i]);
        lemma_tail(a, b, i + 1, step(m, b[i]));
    }
}

proof fn lemma_both(a: Seq<DraftOp>, b: Seq<DraftOp>, i: int, m: Rows)
    requires
        0 <= i <= a.len(),
    ensures
        run(a + b, i, m) == run(b, 0, run(a, i, m)),
    decreases a.len() - i,
{
    if i < a.len() {
        assert((a + b)[i] == a[i]);
        lemma_both(a, b, i + 1, step(m, a[i]));
    } else {
        lemma_tail(a, b, 0, m);
    }
}

pub open spec fn normed(w: DraftWeight, x: Row) -> Row {
    Row::Normed { w, x: Box::new(x) }
}

pub open spec fn product(w: DraftWeight, inner: Width, outer: Width, x: Row) -> Row {
    Row::Product { w, inner, outer, x: Box::new(x) }
}

pub open spec fn sum(a: Row, b: Row) -> Row {
    Row::Sum { a: Box::new(a), b: Box::new(b) }
}

/// One row of so many elements.
pub open spec fn wide(n: u32) -> Width {
    Width { n: 1, each: n }
}

/// A captured row of the context, fused.
pub open spec fn feature(d: DraftDims, first: u32, i: int) -> Row {
    normed(
        DraftWeight::HiddenNorm,
        product(
            DraftWeight::Fuse,
            Width { n: d.captured, each: d.n_embd },
            wide(d.n_embd),
            Row::Captured { slot: (first + i) % RING_CAP as int },
        ),
    )
}

/// What a layer's keys and values are made of: features of the context, then
/// the normed rows of the block.
pub open spec fn source(
    il: u32,
    ctx: u32,
    feat: spec_fn(int) -> Row,
    block: spec_fn(int) -> Row,
    i: int,
) -> Row {
    if i < ctx {
        feat(i)
    } else {
        normed(DraftWeight::AttnNorm(il), block(i - ctx))
    }
}

/// A key of a layer, at its position.
pub open spec fn key(
    d: DraftDims,
    il: u32,
    ctx: u32,
    feat: spec_fn(int) -> Row,
    block: spec_fn(int) -> Row,
    i: int,
) -> Row {
    Row::Turned {
        heads: d.n_kv,
        at: i,
        x: Box::new(
            Row::HeadNormed {
                w: DraftWeight::KNorm(il),
                heads: d.n_kv,
                x: Box::new(
                    product(
                        DraftWeight::K(il),
                        wide(d.n_embd),
                        Width { n: d.n_kv, each: d.head_dim },
                        source(il, ctx, feat, block, i),
                    ),
                ),
            },
        ),
    }
}

/// A value of a layer.
pub open spec fn value(
    d: DraftDims,
    il: u32,
    ctx: u32,
    feat: spec_fn(int) -> Row,
    block: spec_fn(int) -> Row,
    i: int,
) -> Row {
    product(
        DraftWeight::V(il),
        wide(d.n_embd),
        Width { n: d.n_kv, each: d.head_dim },
        source(il, ctx, feat, block, i),
    )
}

/// A query of a layer, at its position behind the context.
pub open spec fn query(
    d: DraftDims,
    il: u32,
    ctx: u32,
    block: spec_fn(int) -> Row,
    r: int,
) -> Row {
    Row::Turned {
        heads: d.n_head,
        at: ctx + r,
        x: Box::new(
            Row::HeadNormed {
                w: DraftWeight::QNorm(il),
                heads: d.n_head,
                x: Box::new(
                    product(
                        DraftWeight::Q(il),
                        wide(d.n_embd),
                        Width { n: d.n_head, each: d.head_dim },
                        normed(DraftWeight::AttnNorm(il), block(r)),
                    ),
                ),
            },
        ),
    }
}

/// A row of the block behind a layer's attention over the whole context and
/// the whole block.
pub open spec fn attended(
    d: DraftDims,
    il: u32,
    ctx: u32,
    rows: u32,
    feat: spec_fn(int) -> Row,
    block: spec_fn(int) -> Row,
    r: int,
) -> Row {
    let n = (ctx + rows) as nat;
    sum(
        block(r),
        product(
            DraftWeight::Out(il),
            Width { n: d.n_head, each: d.head_dim },
            wide(d.n_embd),
            Row::Attended {
                q: Box::new(query(d, il, ctx, block, r)),
                keys: Seq::new(n, |i: int| key(d, il, ctx, feat, block, i)),
                values: Seq::new(n, |i: int| value(d, il, ctx, feat, block, i)),
            },
        ),
    )
}

/// A row behind the gated feed-forward of a layer.
pub open spec fn fed(d: DraftDims, il: u32, x: Row) -> Row {
    let y = normed(DraftWeight::FfnNorm(il), x);
    sum(
        x,
        product(
            DraftWeight::Down(il),
            wide(d.ff),
            wide(d.n_embd),
            Row::Gated {
                gate: Box::new(product(DraftWeight::Gate(il), wide(d.n_embd), wide(d.ff), y)),
                up: Box::new(product(DraftWeight::Up(il), wide(d.n_embd), wide(d.ff), y)),
            },
        ),
    )
}

/// The fused rows of the context.
pub open spec fn features(d: DraftDims, first: u32) -> spec_fn(int) -> Row {
    |i: int| feature(d, first, i)
}

/// The rows of the block behind the first `n` layers.
pub open spec fn block_rows(d: DraftDims, first: u32, ctx: u32, rows: u32, n: int) -> spec_fn(
    int,
) -> Row
    decreases n,
{
    if n <= 0 {
        |r: int| Row::Token { row: r }
    } else {
        let feat = features(d, first);
        let block = block_rows(d, first, ctx, rows, n - 1);
        |r: int|
            fed(d, (n - 1) as u32, attended(d, (n - 1) as u32, ctx, rows, feat, block, r))
    }
}

/// Logits of a normed row: in blocks where the head reads them, then capped,
/// scaled and masked, in that order, where each is on.
pub open spec fn logits(h: HeadFacts, x: Row) -> Row {
    let a = Row::Logits {
        kq: h.kq,
        x: Box::new(
            if h.kq {
                Row::Blocks { x: Box::new(x) }
            } else {
                x
            },
        ),
    };
    let b = if h.softcap {
        Row::Capped { x: Box::new(a) }
    } else {
        a
    };
    let c = if h.scale {
        Row::Scaled { x: Box::new(b) }
    } else {
        b
    };
    if h.padded {
        Row::Masked { x: Box::new(c) }
    } else {
        c
    }
}

proof fn lemma_kv_rows(d: DraftDims, il: u32, ctx: u32, rows: u32, m: Rows)
    requires
        ctx + rows <= u32::MAX,
    ensures
        ({
            let w = run(draft_graph::kv_ops(d, il, ctx, rows), 0, m);
            let feat = |i: int| m(DraftBuf::Feat, i);
            let block = |i: int| m(DraftBuf::Block, i);
            &&& forall|r: int|
                0 <= r < rows ==> #[trigger] w(DraftBuf::BlockNormed, r) == normed(
                    DraftWeight::AttnNorm(il),
                    m(DraftBuf::Block, r),
                )
            &&& forall|i: int|
                0 <= i < ctx + rows ==> #[trigger] w(DraftBuf::Keys, i) == product(
                    DraftWeight::K(il),
                    wide(d.n_embd),
                    Width { n: d.n_kv, each: d.head_dim },
                    source(il, ctx, feat, block, i),
                )
            &&& forall|i: int|
                0 <= i < ctx + rows ==> #[trigger] w(DraftBuf::Values, i) == value(
                    d,
                    il,
                    ctx,
                    feat,
                    block,
                    i,
                )
            &&& forall|r: int| #[trigger] w(DraftBuf::Block, r) == m(DraftBuf::Block, r)
            &&& forall|r: int| #[trigger] w(DraftBuf::Feat, r) == m(DraftBuf::Feat, r)
        }),
{
    reveal_with_fuel(run, 6);
}

proof fn lemma_mix_rows(d: DraftDims, il: u32, ctx: u32, rows: u32, m: Rows)
    requires
        ctx + rows <= u32::MAX,
    ensures
        ({
            let w = run(draft_graph::mix_ops(d, il, ctx, rows), 0, m);
            let n = (ctx + rows) as nat;
            &&& forall|r: int|
                0 <= r < rows ==> #[trigger] w(DraftBuf::Block, r) == sum(
                    m(DraftBuf::Block, r),
                    product(
                        DraftWeight::Out(il),
                        Width { n: d.n_head, each: d.head_dim },
                        wide(d.n_embd),
                        Row::Attended {
                            q: Box::new(
                                Row::Turned {
                                    heads: d.n_head,
                                    at: ctx + r,
                                    x: Box::new(
                                        Row::HeadNormed {
                                            w: DraftWeight::QNorm(il),
                                            heads: d.n_head,
                                            x: Box::new(
                                                product(
                                                    DraftWeight::Q(il),
                                                    wide(d.n_embd),
                                                    Width { n: d.n_head, each: d.head_dim },
                                                    m(DraftBuf::BlockNormed, r),
                                                ),
                                            ),
                                        },
                                    ),
                                },
                            ),
                            keys: Seq::new(
                                n,
                                |i: int|
                                    Row::Turned {
                                        heads: d.n_kv,
                                        at: i,
                                        x: Box::new(
                                            Row::HeadNormed {
                                                w: DraftWeight::KNorm(il),
                                                heads: d.n_kv,
                                                x: Box::new(m(DraftBuf::Keys, i)),
                                            },
                                        ),
                                    },
                            ),
                            values: Seq::new(n, |i: int| m(DraftBuf::Values, i)),
                        },
                    ),
                )
            &&& forall|r: int| #[trigger] w(DraftBuf::Feat, r) == m(DraftBuf::Feat, r)
        }),
{
    let ops = draft_graph::mix_ops(d, il, ctx, rows);
    let n = (ctx + rows) as nat;
    let a = ops.take(5);
    let b = ops.skip(5);
    assert(ops =~= a + b);
    lemma_both(a, b, 0, m);
    let m5 = run(a, 0, m);
    assert(forall|i: int| #[trigger] m5(DraftBuf::Values, i) == m(DraftBuf::Values, i)) by {
        reveal_with_fuel(run, 6);
    }
    assert(forall|i: int| #[trigger] m5(DraftBuf::Feat, i) == m(DraftBuf::Feat, i)) by {
        reveal_with_fuel(run, 6);
    }
    assert(forall|i: int| #[trigger] m5(DraftBuf::Block, i) == m(DraftBuf::Block, i)) by {
        reveal_with_fuel(run, 6);
    }
    let turned = |i: int|
        Row::Turned {
            heads: d.n_kv,
            at: i,
            x: Box::new(
                Row::HeadNormed {
                    w: DraftWeight::KNorm(il),
                    heads: d.n_kv,
                    x: Box::new(m(DraftBuf::Keys, i)),
                },
            ),
        };
    assert(forall|i: int| 0 <= i < n ==> #[trigger] m5(DraftBuf::Keys, i) == turned(i)) by {
        reveal_with_fuel(run, 6);
    }
    assert(forall|r: int|
        0 <= r < rows ==> #[trigger] m5(DraftBuf::Queries, r) == (Row::Turned {
            heads: d.n_head,
            at: ctx + r,
            x: Box::new(
                Row::HeadNormed {
                    w: DraftWeight::QNorm(il),
                    heads: d.n_head,
                    x: Box::new(
                        product(
                            DraftWeight::Q(il),
                            wide(d.n_embd),
                            Width { n: d.n_head, each: d.head_dim },
                            m(DraftBuf::BlockNormed, r),
                        ),
                    ),
                },
            ),
        })) by {
        reveal_with_fuel(run, 6);
    }
    assert(Seq::new(n, |i: int| m5(DraftBuf::Values, i)) =~= Seq::new(
        n,
        |i: int| m(DraftBuf::Values, i),
    ));
    assert(Seq::new(n, |i: int| m5(DraftBuf::Keys, i)) =~= Seq::new(n, turned));
    reveal_with_fuel(run, 4);
}

proof fn lemma_ffn_rows(d: DraftDims, il: u32, rows: u32, m: Rows)
    ensures
        ({
            let w = run(draft_graph::ffn_ops(d, il, rows), 0, m);
            &&& forall|r: int|
                0 <= r < rows ==> #[trigger] w(DraftBuf::Block, r) == fed(
                    d,
                    il,
                    m(DraftBuf::Block, r),
                )
            &&& forall|r: int| #[trigger] w(DraftBuf::Feat, r) == m(DraftBuf::Feat, r)
        }),
{
    reveal_with_fuel(run, 7);
}

proof fn lemma_layer_rows(
    d: DraftDims,
    il: u32,
    ctx: u32,
    rows: u32,
    feat: spec_fn(int) -> Row,
    block: spec_fn(int) -> Row,
    m: Rows,
)
    requires
        ctx + rows <= u32::MAX,
        forall|i: int| 0 <= i < ctx ==> #[trigger] m(DraftBuf::Feat, i) == feat(i),
        forall|r: int| 0 <= r < rows ==> #[trigger] m(DraftBuf::Block, r) == block(r),
    ensures
        ({
            let w = run(draft_graph::layer_ops(d, il, ctx, rows), 0, m);
            &&& forall|r: int|
                0 <= r < rows ==> #[trigger] w(DraftBuf::Block, r) == fed(
                    d,
                    il,
                    attended(d, il, ctx, rows, feat, block, r),
                )
            &&& forall|r: int| #[trigger] w(DraftBuf::Feat, r) == m(DraftBuf::Feat, r)
        }),
{
    let a = draft_graph::kv_ops(d, il, ctx, rows);
    let b = draft_graph::mix_ops(d, il, ctx, rows);
    let c = draft_graph::ffn_ops(d, il, rows);
    lemma_both(a, b, 0, m);
    lemma_both(a + b, c, 0, m);
    let m1 = run(a, 0, m);
    let m2 = run(a + b, 0, m);
    lemma_kv_rows(d, il, ctx, rows, m);
    lemma_mix_rows(d, il, ctx, rows, m1);
    lemma_ffn_rows(d, il, rows, m2);
    let n = (ctx + rows) as nat;
    let f0 = |i: int| m(DraftBuf::Feat, i);
    let b0 = |i: int| m(DraftBuf::Block, i);
    assert forall|i: int| 0 <= i < n implies #[trigger] source(il, ctx, f0, b0, i) == source(
        il,
        ctx,
        feat,
        block,
        i,
    ) by {
        if i < ctx {
            assert(m(DraftBuf::Feat, i) == feat(i));
        } else {
            assert(m(DraftBuf::Block, i - ctx) == block(i - ctx));
        }
    }
    assert(Seq::new(n, |i: int| m1(DraftBuf::Values, i)) =~= Seq::new(
        n,
        |i: int| value(d, il, ctx, feat, block, i),
    ));
    assert(Seq::new(
        n,
        |i: int|
            Row::Turned {
                heads: d.n_kv,
                at: i,
                x: Box::new(
                    Row::HeadNormed {
                        w: DraftWeight::KNorm(il),
                        heads: d.n_kv,
                        x: Box::new(m1(DraftBuf::Keys, i)),
                    },
                ),
            },
    ) =~= Seq::new(n, |i: int| key(d, il, ctx, feat, block, i)));
    assert forall|r: int| 0 <= r < rows implies #[trigger] m2(DraftBuf::Block, r) == attended(
        d,
        il,
        ctx,
        rows,
        feat,
        block,
        r,
    ) by {
        assert(m1(DraftBuf::Block, r) == m(DraftBuf::Block, r));
        assert(m1(DraftBuf::BlockNormed, r) == normed(
            DraftWeight::AttnNorm(il),
            m(DraftBuf::Block, r),
        ));
    }
    let w = run(draft_graph::layer_ops(d, il, ctx, rows), 0, m);
    assert forall|r: int| 0 <= r < rows implies #[trigger] w(DraftBuf::Block, r) == fed(
        d,
        il,
        attended(d, il, ctx, rows, feat, block, r),
    ) by {
        assert(m2(DraftBuf::Block, r) == attended(d, il, ctx, rows, feat, block, r));
    }
    assert forall|r: int| #[trigger] w(DraftBuf::Feat, r) == m(DraftBuf::Feat, r) by {
        assert(m2(DraftBuf::Feat, r) == m1(DraftBuf::Feat, r));
    }
}

proof fn lemma_layers_rows(d: DraftDims, first: u32, ctx: u32, rows: u32, n: int, m: Rows)
    requires
        ctx + rows <= u32::MAX,
        0 <= n <= d.n_layer,
        forall|i: int| 0 <= i < ctx ==> #[trigger] m(DraftBuf::Feat, i) == feature(d, first, i),
        forall|r: int|
            0 <= r < rows ==> #[trigger] m(DraftBuf::Block, r) == (Row::Token { row: r }),
    ensures
        ({
            let w = run(draft_graph::layers_ops(d, ctx, rows, n), 0, m);
            &&& forall|r: int|
                0 <= r < rows ==> #[trigger] w(DraftBuf::Block, r) == block_rows(
                    d,
                    first,
                    ctx,
                    rows,
                    n,
                )(r)
            &&& forall|i: int|
                0 <= i < ctx ==> #[trigger] w(DraftBuf::Feat, i) == feature(d, first, i)
        }),
    decreases n,
{
    if n > 0 {
        let a = draft_graph::layers_ops(d, ctx, rows, n - 1);
        let b = draft_graph::layer_ops(d, (n - 1) as u32, ctx, rows);
        lemma_layers_rows(d, first, ctx, rows, n - 1, m);
        lemma_both(a, b, 0, m);
        let m1 = run(a, 0, m);
        let feat = features(d, first);
        let block = block_rows(d, first, ctx, rows, n - 1);
        assert(forall|i: int| 0 <= i < ctx ==> #[trigger] m1(DraftBuf::Feat, i) == feat(i));
        lemma_layer_rows(d, (n - 1) as u32, ctx, rows, feat, block, m1);
        let w = run(b, 0, m1);
        assert forall|r: int| 0 <= r < rows implies #[trigger] w(DraftBuf::Block, r) == block_rows(
            d,
            first,
            ctx,
            rows,
            n,
        )(r) by {}
        assert forall|i: int| 0 <= i < ctx implies #[trigger] w(DraftBuf::Feat, i) == feature(
            d,
            first,
            i,
        ) by {
            assert(w(DraftBuf::Feat, i) == m1(DraftBuf::Feat, i));
        }
    }
}

proof fn lemma_head_rows(h: HeadFacts, rows: u32, m: Rows)
    ensures
        forall|r: int|
            0 <= r < rows ==> #[trigger] run(draft_graph::head_ops(h, rows), 0, m)(
                DraftBuf::Logits,
                r,
            ) == logits(h, m(DraftBuf::Normed, r)),
{
    let a = draft_graph::only(h.kq, DraftOp::HeadBlocks { rows });
    let b = seq![DraftOp::Head { kq: h.kq, rows }];
    let c = draft_graph::only(h.softcap, DraftOp::Softcap { rows });
    let e = draft_graph::only(h.scale, DraftOp::ScaleLogits { rows });
    let g = draft_graph::only(h.padded, DraftOp::MaskTail { rows });
    lemma_both(a, b, 0, m);
    lemma_both(a + b, c, 0, m);
    lemma_both(a + b + c, e, 0, m);
    lemma_both(a + b + c + e, g, 0, m);
    reveal_with_fuel(run, 2);
}

/// What a draft computes: for every token of the block, the logits of its
/// row behind all layers, each of which attends to the fused rows that were
/// captured for the context and to the whole block.
pub proof fn draft_computes_the_block(
    d: DraftDims,
    h: HeadFacts,
    first: u32,
    ctx: u32,
    rows: u32,
    m: Rows,
    r: int,
)
    requires
        ctx + rows <= u32::MAX,
        0 <= r < rows,
    ensures
        run(draft_graph::draft_ops(d, h, first, ctx, rows), 0, m)(DraftBuf::Logits, r) == logits(
            h,
            normed(
                DraftWeight::OutNorm,
                block_rows(d, first, ctx, rows, d.n_layer as int)(r),
            ),
        ),
{
    let a = draft_graph::gather_ops(d, first, ctx, rows);
    let b = draft_graph::layers_ops(d, ctx, rows, d.n_layer as int);
    let c = seq![
        DraftOp::Norm {
            dst: DraftBuf::Normed,
            src: DraftBuf::Block,
            w: DraftWeight::OutNorm,
            rows,
        },
    ];
    lemma_both(a, b, 0, m);
    lemma_both(a + b, c, 0, m);
    lemma_both(a + b + c, draft_graph::head_ops(h, rows), 0, m);
    let m1 = run(a, 0, m);
    assert(forall|i: int| 0 <= i < ctx ==> #[trigger] m1(DraftBuf::Feat, i) == feature(d, first, i))
        by {
        reveal_with_fuel(run, 5);
    }
    assert(forall|i: int|
        0 <= i < rows ==> #[trigger] m1(DraftBuf::Block, i) == (Row::Token { row: i })) by {
        reveal_with_fuel(run, 5);
    }
    lemma_layers_rows(d, first, ctx, rows, d.n_layer as int, m1);
    let m2 = run(b, 0, m1);
    let m3 = run(c, 0, m2);
    assert(m3(DraftBuf::Normed, r) == normed(DraftWeight::OutNorm, m2(DraftBuf::Block, r))) by {
        reveal_with_fuel(run, 2);
    }
    lemma_head_rows(h, rows, m3);
}

proof fn lemma_pairs_rows(n: int, m: Rows)
    requires
        0 <= n <= 0x7fff_ffff,
    ensures
        forall|r: int|
            #[trigger] run(draft_graph::pairs_ops(n), 0, m)(DraftBuf::Pairs, r) == if 0 <= r < 2
                * n {
                if r % 2 == 0 {
                    m(DraftBuf::EmbNormed, r / 2)
                } else {
                    m(DraftBuf::HiddenNormed, r / 2)
                }
            } else {
                m(DraftBuf::Pairs, r)
            },
        forall|b: DraftBuf, r: int|
            b != DraftBuf::Pairs ==> #[trigger] run(draft_graph::pairs_ops(n), 0, m)(b, r) == m(
                b,
                r,
            ),
    decreases n,
{
    if n > 0 {
        let a = draft_graph::pairs_ops(n - 1);
        let b = draft_graph::pair_ops(n - 1);
        lemma_pairs_rows(n - 1, m);
        lemma_both(a, b, 0, m);
        reveal_with_fuel(run, 3);
    }
}

/// What the extra layer reads: every token joined with the hidden row before
/// it, both normed, the first with the row that the last batch left; and the
/// batch leaves its last hidden row.
pub proof fn fill_joins_tokens_with_hidden_rows(n: u32, m: Rows, i: int)
    requires
        1 <= n <= 0x7fff_ffff,
        0 <= i < n,
    ensures
        ({
            let w = run(draft_graph::fill_ops(n), 0, m);
            &&& w(DraftBuf::Stream, i) == (Row::Joined {
                token: Box::new(normed(DraftWeight::TokenNorm, Row::Token { row: i })),
                hidden: Box::new(
                    normed(
                        DraftWeight::StreamNorm,
                        if i == 0 {
                            m(DraftBuf::Hidden, 0)
                        } else {
                            m(DraftBuf::Stream, i - 1)
                        },
                    ),
                ),
            })
            &&& w(DraftBuf::Hidden, 0) == m(DraftBuf::Stream, n - 1)
        }),
{
    let a = draft_graph::shift_ops(n);
    let b = draft_graph::inputs_ops(n);
    let c = draft_graph::pairs_ops(n as int);
    let e = seq![DraftOp::Join { rows: n }];
    lemma_both(a, b, 0, m);
    lemma_both(a + b, c, 0, m);
    lemma_both(a + b + c, e, 0, m);
    let m1 = run(a, 0, m);
    let m2 = run(b, 0, m1);
    let m3 = run(c, 0, m2);
    assert(m1(DraftBuf::Raw, i) == (if i == 0 {
        m(DraftBuf::Hidden, 0)
    } else {
        m(DraftBuf::Stream, i - 1)
    }) && m1(DraftBuf::Hidden, 0) == m(DraftBuf::Stream, n - 1)) by {
        reveal_with_fuel(run, 4);
    }
    assert(m2(DraftBuf::HiddenNormed, i) == normed(DraftWeight::StreamNorm, m1(DraftBuf::Raw, i))
        && m2(DraftBuf::EmbNormed, i) == normed(DraftWeight::TokenNorm, Row::Token { row: i }) && m2(
        DraftBuf::Hidden,
        0,
    ) == m1(DraftBuf::Hidden, 0)) by {
        reveal_with_fuel(run, 4);
    }
    lemma_pairs_rows(n as int, m2);
    assert((2 * i) % 2 == 0 && (2 * i) / 2 == i && (2 * i + 1) % 2 == 1 && (2 * i + 1) / 2 == i);
    assert(m3(DraftBuf::Pairs, 2 * i) == m2(DraftBuf::EmbNormed, i));
    assert(m3(DraftBuf::Pairs, 2 * i + 1) == m2(DraftBuf::HiddenNormed, i));
    assert(m3(DraftBuf::Hidden, 0) == m2(DraftBuf::Hidden, 0));
    reveal_with_fuel(run, 2);
}

/// What the extra layer reads for one drafted token: it, joined with the
/// hidden row that was left.
pub proof fn body_joins_one_token(m: Rows)
    ensures
        run(draft_graph::body_ops(), 0, m)(DraftBuf::Stream, 0) == (Row::Joined {
            token: Box::new(normed(DraftWeight::TokenNorm, Row::Token { row: 0 })),
            hidden: Box::new(normed(DraftWeight::StreamNorm, m(DraftBuf::Hidden, 0))),
        }),
{
    reveal_with_fuel(run, 7);
}

/// What the head makes of normed rows.
pub proof fn head_makes_logits(h: HeadFacts, rows: u32, m: Rows, r: int)
    requires
        0 <= r < rows,
    ensures
        run(draft_graph::head_ops(h, rows), 0, m)(DraftBuf::Logits, r) == logits(
            h,
            m(DraftBuf::Normed, r),
        ),
{
    lemma_head_rows(h, rows, m);
}

/// A launch stays inside the buffer it writes, and a product is as wide as
/// the rows it becomes.
pub open spec fn stays_inside(s: &DraftShape, op: DraftOp) -> bool {
    let (b, at, n) = draft_graph::fills(op);
    let own = draft_graph::draft_extent(s, b);
    ||| b == DraftBuf::Normed || b == DraftBuf::HeadBlocks || b == DraftBuf::Logits
    ||| {
        &&& 0 <= at
        &&& at + n <= own.0
        &&& op matches DraftOp::Mul { outer, .. } ==> outer.n * outer.each == own.1
    }
}

/// Every row a product reads is as wide as its buffer's rows.
pub open spec fn reads_whole_rows(s: &DraftShape, op: DraftOp) -> bool {
    op matches DraftOp::Mul { src, inner, .. } ==> inner.n * inner.each
        == draft_graph::draft_extent(s, src).1
}

proof fn lemma_layer_inside(s: &DraftShape, d: DraftDims, il: u32, ctx: u32, rows: u32)
    requires
        d.n_embd == s.n_embd && d.ff == s.ff && d.n_head == s.n_head && d.n_kv == s.n_kv,
        d.head_dim == s.head_dim,
        ctx <= RING_CAP,
        rows <= s.block_size,
        ctx + rows <= u32::MAX,
    ensures
        forall|k: int|
            0 <= k < draft_graph::layer_ops(d, il, ctx, rows).len() ==> stays_inside(
                s,
                #[trigger] draft_graph::layer_ops(d, il, ctx, rows)[k],
            ) && reads_whole_rows(s, draft_graph::layer_ops(d, il, ctx, rows)[k]),
{
    assert(1 * d.n_embd as int == d.n_embd) by (nonlinear_arith);
    assert(1 * d.ff as int == d.ff) by (nonlinear_arith);
    let a = draft_graph::kv_ops(d, il, ctx, rows);
    let b = draft_graph::mix_ops(d, il, ctx, rows);
    let c = draft_graph::ffn_ops(d, il, rows);
    let all = a + b + c;
    assert forall|k: int| 0 <= k < all.len() implies stays_inside(s, #[trigger] all[k])
        && reads_whole_rows(s, all[k]) by {
        if k < a.len() {
            assert(all[k] == a[k]);
        } else if k < a.len() + b.len() {
            assert(all[k] == b[k - a.len()]);
        } else {
            assert(all[k] == c[k - a.len() - b.len()]);
        }
    }
}

proof fn lemma_layers_inside(s: &DraftShape, d: DraftDims, ctx: u32, rows: u32, n: int)
    requires
        d.n_embd == s.n_embd && d.ff == s.ff && d.n_head == s.n_head && d.n_kv == s.n_kv,
        d.head_dim == s.head_dim,
        ctx <= RING_CAP,
        rows <= s.block_size,
        ctx + rows <= u32::MAX,
    ensures
        forall|k: int|
            0 <= k < draft_graph::layers_ops(d, ctx, rows, n).len() ==> stays_inside(
                s,
                #[trigger] draft_graph::layers_ops(d, ctx, rows, n)[k],
            ) && reads_whole_rows(s, draft_graph::layers_ops(d, ctx, rows, n)[k]),
    decreases n,
{
    if n > 0 {
        let a = draft_graph::layers_ops(d, ctx, rows, n - 1);
        let b = draft_graph::layer_ops(d, (n - 1) as u32, ctx, rows);
        lemma_layers_inside(s, d, ctx, rows, n - 1);
        lemma_layer_inside(s, d, (n - 1) as u32, ctx, rows);
        let all = a + b;
        assert forall|k: int| 0 <= k < all.len() implies stays_inside(s, #[trigger] all[k])
            && reads_whole_rows(s, all[k]) by {
            if k < a.len() {
                assert(all[k] == a[k]);
            } else {
                assert(all[k] == b[k - a.len()]);
            }
        }
    }
}

/// The buffers that a draft brings hold every row that its launches write,
/// at the width of the products that write them.
pub proof fn draft_stays_inside_its_buffers(
    s: &DraftShape,
    d: DraftDims,
    h: HeadFacts,
    first: u32,
    ctx: u32,
    rows: u32,
)
    requires
        d.n_embd == s.n_embd && d.ff == s.ff && d.n_head == s.n_head && d.n_kv == s.n_kv,
        d.head_dim == s.head_dim && d.captured == s.layer_ids@.len(),
        ctx <= RING_CAP,
        rows <= s.block_size,
        ctx + rows <= u32::MAX,
    ensures
        forall|k: int|
            0 <= k < draft_graph::draft_ops(d, h, first, ctx, rows).len() ==> stays_inside(
                s,
                #[trigger] draft_graph::draft_ops(d, h, first, ctx, rows)[k],
            ) && reads_whole_rows(s, draft_graph::draft_ops(d, h, first, ctx, rows)[k]),
{
    assert(1 * d.n_embd as int == d.n_embd) by (nonlinear_arith);
    assert(1 * d.ff as int == d.ff) by (nonlinear_arith);
    let a = draft_graph::gather_ops(d, first, ctx, rows);
    let b = draft_graph::layers_ops(d, ctx, rows, d.n_layer as int);
    let c = seq![
        DraftOp::Norm {
            dst: DraftBuf::Normed,
            src: DraftBuf::Block,
            w: DraftWeight::OutNorm,
            rows,
        },
    ];
    let e = draft_graph::head_ops(h, rows);
    lemma_layers_inside(s, d, ctx, rows, d.n_layer as int);
    let all = a + b + c + e;
    assert forall|k: int| 0 <= k < all.len() implies stays_inside(s, #[trigger] all[k])
        && reads_whole_rows(s, all[k]) by {
        if k < a.len() {
            assert(all[k] == a[k]);
        } else if k < a.len() + b.len() {
            assert(all[k] == b[k - a.len()]);
        } else if k < a.len() + b.len() + c.len() {
            assert(all[k] == c[k - a.len() - b.len()]);
        } else {
            assert(all[k] == e[k - a.len() - b.len() - c.len()]);
            let x = e[k - a.len() - b.len() - c.len()];
            assert(x == (DraftOp::HeadBlocks { rows }) || x == (DraftOp::Head { kq: h.kq, rows })
                || x == (DraftOp::Softcap { rows }) || x == (DraftOp::ScaleLogits { rows }) || x
                == (DraftOp::MaskTail { rows }));
        }
    }
}

/// The weights of one layer are listed with the layers.
proof fn lemma_layer_listed(n: nat, il: u32, k: int)
    requires
        il < n <= 0x1_0000_0000,
        0 <= k < 11,
    ensures
        draft_graph::layers_weights(n).contains(draft_graph::layer_weights(il)[k]),
    decreases n,
{
    let a = draft_graph::layers_weights((n - 1) as nat);
    let b = draft_graph::layer_weights((n - 1) as u32);
    let w = draft_graph::layer_weights(il)[k];
    if il < n - 1 {
        lemma_layer_listed((n - 1) as nat, il, k);
        let i = choose|i: int| 0 <= i < a.len() && a[i] == w;
        assert((a + b)[i] == w);
    } else {
        assert((a + b)[a.len() + k] == w);
    }
}

/// A draft loads every weight that a layer of it goes by.
pub proof fn layers_load_their_weights(n: nat, il: u32)
    requires
        il < n <= 0x1_0000_0000,
    ensures
        ({
            let l = draft_graph::layers_weights(n);
            &&& l.contains(DraftWeight::AttnNorm(il)) && l.contains(DraftWeight::FfnNorm(il))
            &&& l.contains(DraftWeight::Q(il)) && l.contains(DraftWeight::K(il)) && l.contains(
                DraftWeight::V(il),
            ) && l.contains(DraftWeight::Out(il))
            &&& l.contains(DraftWeight::QNorm(il)) && l.contains(DraftWeight::KNorm(il))
            &&& l.contains(DraftWeight::Gate(il)) && l.contains(DraftWeight::Up(il)) && l.contains(
                DraftWeight::Down(il),
            )
        }),
        draft_graph::layers_weights(n).len() == 11 * n,
    decreases n,
{
    assert forall|k: int| 0 <= k < 11 implies draft_graph::layers_weights(n).contains(
        #[trigger] draft_graph::layer_weights(il)[k],
    ) by {
        lemma_layer_listed(n, il, k);
    }
    let w = draft_graph::layer_weights(il);
    assert(draft_graph::layers_weights(n).contains(w[0]) && draft_graph::layers_weights(
        n,
    ).contains(w[1]) && draft_graph::layers_weights(n).contains(w[2])
        && draft_graph::layers_weights(n).contains(w[3]) && draft_graph::layers_weights(
        n,
    ).contains(w[4]) && draft_graph::layers_weights(n).contains(w[5])
        && draft_graph::layers_weights(n).contains(w[6]) && draft_graph::layers_weights(
        n,
    ).contains(w[7]) && draft_graph::layers_weights(n).contains(w[8])
        && draft_graph::layers_weights(n).contains(w[9]) && draft_graph::layers_weights(
        n,
    ).contains(w[10]));
    lemma_layers_len(n);
}

proof fn lemma_layers_len(n: nat)
    ensures
        draft_graph::layers_weights(n).len() == 11 * n,
    decreases n,
{
    if n > 0 {
        lemma_layers_len((n - 1) as nat);
    }
}

} // verus!
