//! Decisions inside a layer's attention: head geometry, rotation, score
//! scale, staged weights, and the selection of key rows.

use vstd::prelude::*;

use crate::floats;
use crate::geom;
use crate::geom::Geom;
use crate::shape::{Shape, F32_ONE};

verus! {

/// What a grouped-query layer has.
#[derive(Clone, Copy, Debug, PartialEq, Eq, Structural)]
pub struct GqaParts {
    /// Relative-position bias instead of rotation.
    pub relative: bool,
    /// An output gate per head.
    pub out_gate: bool,
    /// A norm on the query heads.
    pub q_norm: bool,
    /// The file has a table of rotation factors.
    pub factors: bool,
}

/// How positions enter the heads.
#[derive(Clone, Copy, Debug, PartialEq, Eq, Structural)]
pub enum Rotation {
    /// Not by rotation.
    Bias,
    /// The first `width` elements of a head, with the factor table or not.
    Plain { width: u32, factors: bool },
    /// The first `width` elements, through the scaling path. `yarn` stretches
    /// the frequencies; `cancel` undoes the magnitude the kernel adds.
    Scaled { width: u32, yarn: bool, cancel: bool },
}

/// What attention scores are multiplied with.
#[derive(Clone, Copy, Debug, PartialEq, Eq, Structural)]
pub enum ScoreScale {
    /// One over the head width.
    PerWidth,
    /// One.
    Unit,
    /// One over the root of the head width.
    PerRoot,
}

/// How a grouped-query layer runs. `theta` holds float bits.
#[derive(Clone, Copy, Debug, PartialEq, Eq, Structural)]
pub struct GqaPlan {
    pub n_head_q: u32,
    pub n_head_kv: u32,
    pub head_dim: u32,
    pub theta: u32,
    pub window: u32,
    /// Values are normed per head, without a weight.
    pub norm_values: bool,
    pub rotation: Rotation,
    pub scale: ScoreScale,
}

/// Query heads of a layer.
pub open spec fn query_heads(s: &Shape, g: Option<Geom>) -> u32 {
    match g {
        Some(x) => if x.n_head_q != 0 { x.n_head_q } else { s.n_head },
        None => s.n_head,
    }
}

/// Rotation of a layer.
pub open spec fn rotation_of(s: &Shape, g: Option<Geom>, p: GqaParts) -> Rotation {
    let window = match g {
        Some(x) => x.window,
        None => 0,
    };
    if g is Some && g->0.rot != 0 {
        let yarn = (s.rope_yarn_uniform || window == 0) && floats::above(
            s.rope_scale_factor,
            F32_ONE,
        );
        Rotation::Scaled { width: g->0.rot, yarn, cancel: yarn && !s.rope_yarn_uniform }
    } else if p.relative {
        Rotation::Bias
    } else {
        match g {
            Some(x) => Rotation::Plain { width: x.head_dim, factors: x.factors && p.factors },
            None => Rotation::Plain { width: s.rot_dim, factors: false },
        }
    }
}

/// How a grouped-query layer runs: by its own geometry where it has one.
pub open spec fn gqa_plan(s: &Shape, g: Option<Geom>, p: GqaParts) -> GqaPlan {
    // Query heads that are normed, in an architecture with per-layer geometry
    // and no output gate, are scored as they are.
    let normed = g is Some && !p.out_gate && p.q_norm;
    GqaPlan {
        n_head_q: query_heads(s, g),
        n_head_kv: match g {
            Some(x) => x.n_head_kv,
            None => s.n_head_kv,
        },
        head_dim: match g {
            Some(x) => x.head_dim,
            None => s.head_dim,
        },
        theta: match g {
            Some(x) => x.theta,
            None => s.rope_freq_base,
        },
        window: match g {
            Some(x) => x.window,
            None => 0,
        },
        norm_values: normed && !p.relative,
        rotation: rotation_of(s, g, p),
        scale: if p.relative {
            ScoreScale::PerWidth
        } else if normed {
            ScoreScale::Unit
        } else {
            ScoreScale::PerRoot
        },
    }
}

/// How a grouped-query layer runs.
pub fn plan_gqa(s: &Shape, g: Option<Geom>, p: GqaParts) -> (r: GqaPlan)
    ensures
        r == gqa_plan(s, g, p),
{
    let (n_head_q, n_head_kv, head_dim, theta, window): (u32, u32, u32, u32, u32) = match g {
        Some(x) => (
            if x.n_head_q != 0 {
                x.n_head_q
            } else {
                s.n_head
            },
            x.n_head_kv,
            x.head_dim,
            x.theta,
            x.window,
        ),
        None => (s.n_head, s.n_head_kv, s.head_dim, s.rope_freq_base, 0),
    };
    let own_rot: u32 = match g {
        Some(x) => x.rot,
        None => 0,
    };
    let rotation: Rotation = if own_rot != 0 {
        let yarn: bool = (s.rope_yarn_uniform || window == 0) && floats::greater(
            s.rope_scale_factor,
            F32_ONE,
        );
        Rotation::Scaled { width: own_rot, yarn, cancel: yarn && !s.rope_yarn_uniform }
    } else if p.relative {
        Rotation::Bias
    } else {
        match g {
            Some(x) => Rotation::Plain { width: x.head_dim, factors: x.factors && p.factors },
            None => Rotation::Plain { width: s.rot_dim, factors: false },
        }
    };
    let normed: bool = g.is_some() && !p.out_gate && p.q_norm;
    GqaPlan {
        n_head_q,
        n_head_kv,
        head_dim,
        theta,
        window,
        norm_values: normed && !p.relative,
        rotation,
        scale: if p.relative {
            ScoreScale::PerWidth
        } else if normed {
            ScoreScale::Unit
        } else {
            ScoreScale::PerRoot
        },
    }
}

/// Width of the attention output of a layer.
pub open spec fn out_width(s: &Shape, g: Option<Geom>, gqa: bool) -> int {
    match g {
        Some(x) => if gqa { query_heads(s, g) * x.head_dim } else { s.out_width() },
        None => s.out_width(),
    }
}

/// Width of the attention output of a layer.
pub fn heads_width(s: &Shape, g: Option<Geom>, gqa: bool) -> (n: u32)
    requires
        out_width(s, g, gqa) <= u32::MAX,
    ensures
        n == out_width(s, g, gqa),
{
    match g {
        Some(x) => if gqa {
            let h: u32 = if x.n_head_q != 0 {
                x.n_head_q
            } else {
                s.n_head
            };
            h * x.head_dim
        } else {
            s.heads_dim()
        },
        None => s.heads_dim(),
    }
}

/// The rows one layer attends to.
#[derive(Clone, Copy, Debug, PartialEq, Eq, Structural)]
pub enum Rows {
    /// All that are visible.
    All(u32),
    /// The best scored.
    Scored(u32),
    /// The list that an earlier layer left.
    Reused(u32),
}

/// The live selection of key rows: its length, and the card it lies on.
#[derive(Clone, Copy, Debug, PartialEq, Eq, Structural)]
pub struct Selection {
    pub len: u32,
    /// Negative before the first selection.
    pub dev: i32,
}

/// No indexer layer has run, yet a layer wants to reuse a selection.
#[derive(Clone, Copy, Debug, PartialEq, Eq, Structural)]
pub struct NoSelection;

/// What a layer selects.
pub open spec fn rows_of(
    s: Selection,
    topk: u32,
    visible: u32,
    il: int,
    n_leading_dense: u32,
    has_indexer: bool,
) -> Option<Rows> {
    if topk == 0 || visible <= topk {
        Some(Rows::All(visible))
    } else if geom::full_indexer(il, n_leading_dense as int) && has_indexer {
        Some(Rows::Scored(topk))
    } else if s.len == 0 {
        None
    } else {
        Some(Rows::Reused(s.len))
    }
}

/// The selection a layer leaves.
pub open spec fn left_by(s: Selection, r: Rows, dev: i32) -> Selection {
    match r {
        Rows::All(n) => Selection { len: n, dev },
        Rows::Scored(n) => Selection { len: n, dev },
        Rows::Reused(_) => s,
    }
}

impl Selection {
    /// Nothing selected yet.
    pub fn new() -> (s: Selection)
        ensures
            s.len == 0,
            s.dev == -1,
    {
        Selection { len: 0, dev: -1 }
    }

    /// The live list lies on another card than the one that is to read it.
    pub open spec fn must_hop(&self, dev: i32, known: bool) -> bool {
        self.dev >= 0 && self.dev != dev && self.len > 0 && known
    }

    /// Bring the live list to the layer's card: `Some` tells how many entries
    /// to copy per token. `known` says that the card it lies on has scratch
    /// buffers.
    pub fn hop(&mut self, dev: i32, known: bool) -> (r: Option<u32>)
        ensures
            final(self).len == old(self).len,
            match r {
                Some(n) => old(self).must_hop(dev, known) && n == old(self).len && final(self).dev
                    == dev,
                None => !old(self).must_hop(dev, known) && final(self).dev == old(self).dev,
            },
    {
        if self.dev >= 0 && self.dev != dev && self.len > 0 && known {
            self.dev = dev;
            Some(self.len)
        } else {
            None
        }
    }

    /// Select the rows of layer `il`, which runs on `dev`.
    pub fn select(
        &mut self,
        topk: u32,
        visible: u32,
        il: usize,
        n_leading_dense: u32,
        has_indexer: bool,
        dev: i32,
    ) -> (r: Result<Rows, NoSelection>)
        ensures
            match r {
                Ok(x) => rows_of(
                    *old(self),
                    topk,
                    visible,
                    il as int,
                    n_leading_dense,
                    has_indexer,
                ) == Some(x) && *final(self) == left_by(*old(self), x, dev),
                Err(_) => rows_of(
                    *old(self),
                    topk,
                    visible,
                    il as int,
                    n_leading_dense,
                    has_indexer,
                ) is None && *final(self) == *old(self),
            },
    {
        if topk == 0 || visible <= topk {
            self.len = visible;
            self.dev = dev;
            Ok(Rows::All(visible))
        } else if geom::uses_full_indexer(il, n_leading_dense) && has_indexer {
            self.len = topk;
            self.dev = dev;
            Ok(Rows::Scored(topk))
        } else if self.len == 0 {
            Err(NoSelection)
        } else {
            Ok(Rows::Reused(self.len))
        }
    }
}

/// A layer that reuses a selection reads as many rows as the layer before it
/// read, whatever cards the two run on.
pub proof fn reuse_repeats_the_selection(
    s: Selection,
    topk: u32,
    visible: u32,
    a: int,
    b: int,
    n_dense: u32,
    idx_a: bool,
    idx_b: bool,
    dev_a: i32,
)
    requires
        rows_of(s, topk, visible, a, n_dense, idx_a) is Some,
        rows_of(
            left_by(s, rows_of(s, topk, visible, a, n_dense, idx_a)->0, dev_a),
            topk,
            visible,
            b,
            n_dense,
            idx_b,
        ) matches Some(Rows::Reused(_)),
    ensures
        ({
            let first = rows_of(s, topk, visible, a, n_dense, idx_a)->0;
            let n = match first {
                Rows::All(n) => n,
                Rows::Scored(n) => n,
                Rows::Reused(n) => n,
            };
            rows_of(left_by(s, first, dev_a), topk, visible, b, n_dense, idx_b) == Some(
                Rows::Reused(n),
            )
        }),
{
}

/// Within the first `topk` rows every layer sees all of them.
pub proof fn short_contexts_see_everything(
    s: Selection,
    topk: u32,
    visible: u32,
    il: int,
    n_dense: u32,
    idx: bool,
)
    requires
        topk == 0 || visible <= topk,
    ensures
        rows_of(s, topk, visible, il, n_dense, idx) == Some(Rows::All(visible)),
{
}

/// Which layer's pinned weights a staging arena holds.
#[derive(Clone, Copy, Debug, PartialEq, Eq, Structural)]
pub struct AttnStage {
    pub layer: Option<usize>,
}

impl AttnStage {
    /// An empty arena.
    pub fn new() -> (a: AttnStage)
        ensures
            a.layer is None,
    {
        AttnStage { layer: None }
    }

    /// Copies of layer `il` were queued; `any` tells whether there was
    /// something to copy.
    pub fn kick(&mut self, il: usize, any: bool)
        ensures
            final(self).layer == if any {
                Some(il)
            } else {
                None
            },
    {
        self.layer = if any {
            Some(il)
        } else {
            None
        };
    }

    /// The copies of layer `il` can be used; `done` tells whether the copies
    /// queued last have landed.
    pub fn ready_for(&self, il: usize, done: bool) -> (r: bool)
        ensures
            r == (self.layer == Some(il) && done),
    {
        match self.layer {
            Some(l) => l == il && done,
            None => false,
        }
    }
}

/// The arena of a layer: neighbours alternate.
pub fn arena_of(il: usize) -> (i: usize)
    ensures
        i == il % 2,
        i < 2,
{
    il % 2
}

/// Arguments of a layer's router.
#[derive(Clone, Copy, Debug, PartialEq, Eq, Structural)]
pub struct RouterPlan {
    /// Shared experts that ride along as always-selected slots.
    pub sink: u32,
    /// Experts the router picks.
    pub picks: u32,
    /// Logits per token.
    pub logits: u32,
    /// 0 sigmoid, 1 softmax, 2 with shared slots.
    pub mode: u32,
}

/// Arguments of a layer's router. The norm of a layer that routes on its own
/// scaled input (`own_input`) leaves no room for shared slots' logits.
pub fn router_plan(s: &Shape, has_sink: bool, own_input: bool) -> (r: RouterPlan)
    requires
        s.n_shexp_sink <= s.n_expert_used,
        s.n_expert + s.n_shexp_sink <= u32::MAX,
    ensures
        r.sink == if has_sink {
            s.n_shexp_sink
        } else {
            0
        },
        r.picks == s.n_expert_used - r.sink,
        r.logits == if own_input {
            s.n_expert as int
        } else {
            s.n_expert + r.sink
        },
        r.mode == if r.sink > 0 {
            2u32
        } else if s.router_softmax {
            1
        } else {
            0
        },
{
    let sink: u32 = if has_sink {
        s.n_shexp_sink
    } else {
        0
    };
    RouterPlan {
        sink,
        picks: s.n_expert_used - sink,
        logits: if own_input {
            s.n_expert
        } else {
            s.n_expert + sink
        },
        mode: if sink > 0 {
            2
        } else if s.router_softmax {
            1
        } else {
            0
        },
    }
}

/// A grouped-query layer goes by its own geometry where it has one, and by
/// the shape where it has none.
pub proof fn plan_follows_the_geometry(s: &Shape, g: Option<Geom>, p: GqaParts)
    ensures
        ({
            let r = gqa_plan(s, g, p);
            &&& g is None ==> r.n_head_q == s.n_head && r.n_head_kv == s.n_head_kv && r.head_dim
                == s.head_dim && r.theta == s.rope_freq_base && r.window == 0 && !r.norm_values
            &&& g matches Some(x) ==> r.n_head_kv == x.n_head_kv && r.head_dim == x.head_dim && r.theta
                == x.theta && r.window == x.window
            &&& g matches Some(x) ==> (x.n_head_q > 0 ==> r.n_head_q == x.n_head_q) && (x.n_head_q
                == 0 ==> r.n_head_q == s.n_head)
            &&& out_width(s, g, true) == (if g is Some {
                r.n_head_q * r.head_dim
            } else {
                s.out_width()
            })
            &&& out_width(s, g, false) == s.out_width()
        }),
{
}

/// Scores are divided by the head width under relative positions, left as
/// they are where a layer of its own geometry norms its queries and has no
/// output gate, and divided by the root otherwise. Values are normed in the
/// second case alone.
pub proof fn scores_are_scaled_once(s: &Shape, g: Option<Geom>, p: GqaParts)
    ensures
        ({
            let r = gqa_plan(s, g, p);
            let as_is = g is Some && p.q_norm && !p.out_gate;
            &&& r.scale == ScoreScale::PerWidth <==> p.relative
            &&& r.scale == ScoreScale::Unit <==> !p.relative && as_is
            &&& r.scale == ScoreScale::PerRoot <==> !p.relative && !as_is
            &&& r.norm_values <==> r.scale == ScoreScale::Unit
        }),
{
}

/// A layer with a rotated width of its own goes through the scaling path,
/// stretched where the model stretches and the layer sees everything or all
/// layers are stretched; otherwise relative positions take the place of
/// rotation, and without them the layer's whole heads or the shape's width
/// are rotated.
pub proof fn rotation_follows_the_layer(s: &Shape, g: Option<Geom>, p: GqaParts)
    ensures
        ({
            let r = gqa_plan(s, g, p).rotation;
            let own = g is Some && g->0.rot != 0;
            &&& r is Scaled <==> own
            &&& r matches Rotation::Scaled { width, yarn, cancel } ==> {
                &&& width == g->0.rot
                &&& yarn <==> floats::above(s.rope_scale_factor, F32_ONE) && (s.rope_yarn_uniform
                    || g->0.window == 0)
                &&& cancel <==> yarn && !s.rope_yarn_uniform
            }
            &&& r is Bias <==> !own && p.relative
            &&& !own && !p.relative && g is Some ==> r == (Rotation::Plain {
                width: g->0.head_dim,
                factors: g->0.factors && p.factors,
            })
            &&& !own && !p.relative && g is None ==> r == (Rotation::Plain {
                width: s.rot_dim,
                factors: false,
            })
        }),
{
}

/// A selection is copied between cards only where there is one, on another
/// card that can send it.
pub proof fn only_live_lists_hop(s: Selection, dev: i32, known: bool)
    ensures
        s.must_hop(dev, known) ==> s.len > 0 && s.dev >= 0 && s.dev != dev && known,
        s.len > 0 && s.dev >= 0 && s.dev != dev && known ==> s.must_hop(dev, known),
{
}

/// Beyond the limit a layer that selects reads the limit, the layers that do
/// not read what was selected last, and before any selection there is
/// nothing to read.
pub proof fn long_contexts_see_a_selection(
    s: Selection,
    topk: u32,
    visible: u32,
    il: int,
    n_dense: u32,
    idx: bool,
    dev: i32,
)
    requires
        0 < topk < visible,
    ensures
        ({
            let own = idx && geom::full_indexer(il, n_dense as int);
            let r = rows_of(s, topk, visible, il, n_dense, idx);
            &&& own ==> r == Some(Rows::Scored(topk)) && left_by(s, r->0, dev) == (Selection {
                len: topk,
                dev,
            })
            &&& !own && s.len > 0 ==> r == Some(Rows::Reused(s.len)) && left_by(s, r->0, dev) == s
            &&& !own && s.len == 0 ==> r is None
        }),
{
}

} // verus!
