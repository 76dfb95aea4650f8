//! The parts of a layer: which it has, what its weights are called, and what
//! its launches go by.

use vstd::prelude::*;

use crate::attn::{self, GqaParts, Selection};
use crate::geom;
use crate::graph::{AttnFacts, FfnParts, LatentFacts, Weight};
use crate::hybrid::{GraphFacts, HybridFacts};
use crate::layer_plan::{FfnKind, Form, Step};
use crate::shape::Shape;
use crate::text;

verus! {

/// The step leaves `part` with the layer: slabs of experts stay in the file.
pub open spec fn keeps(s: Step, part: Seq<char>) -> bool {
    s.part@ == part && s.form != Form::Experts && s.form != Form::SharedExperts
}

/// A layer that loads `v` has `part`.
pub open spec fn holds(v: Seq<Step>, part: Seq<char>) -> bool {
    exists|i: int| 0 <= i < v.len() && keeps(#[trigger] v[i], part)
}

/// Whether a layer that loads `v` has `part`.
pub fn has(v: &Vec<Step>, part: &str) -> (r: bool)
    ensures
        r == holds(v@, part@),
{
    let mut i: usize = 0;
    while i < v.len()
        invariant
            i <= v@.len(),
            forall|k: int| 0 <= k < i ==> !keeps(#[trigger] v@[k], part@),
        decreases v@.len() - i,
    {
        let s: Step = v[i];
        if text::same(s.part, part) && s.form != Form::Experts && s.form != Form::SharedExperts {
            assert(keeps(v@[i as int], part@));
            return true;
        }
        i = i + 1;
    }
    false
}

/// What a weight is called. The fixed rotation and the packed coefficients
/// are no part of a layer and have no name.
pub open spec fn part_name(v: Seq<Step>, w: Weight) -> Seq<char> {
    let own_norm = holds(v, "ffn_norm.weight"@);
    let shared = holds(v, "ffn_gate_shexp.weight"@);
    match w {
        Weight::AttnNorm => "attn_norm.weight"@,
        Weight::AttnQ => "attn_q.weight"@,
        Weight::AttnK => "attn_k.weight"@,
        Weight::AttnV => "attn_v.weight"@,
        Weight::BiasQ => "attn_q.bias"@,
        Weight::BiasK => "attn_k.bias"@,
        Weight::BiasV => "attn_v.bias"@,
        Weight::BiasOut => "attn_output.bias"@,
        Weight::ConvK => "shortconv_k.weight"@,
        Weight::ConvV => "shortconv_v.weight"@,
        Weight::ConvAttn => "shortconv_attn.weight"@,
        Weight::ConvMlp => "shortconv_mlp.weight"@,
        Weight::QNorm => "attn_q_norm.weight"@,
        Weight::KNorm => "attn_k_norm.weight"@,
        Weight::Rel => "attn_r.weight"@,
        Weight::RelProj => "attn_rel_proj.weight"@,
        Weight::HeadGate => "attn_gate.weight"@,
        Weight::AttnOutput => "attn_output.weight"@,
        Weight::QA => "attn_q_a.weight"@,
        Weight::QANorm => "attn_q_a_norm.weight"@,
        Weight::QB => "attn_q_b.weight"@,
        Weight::KvA => "attn_kv_a_mqa.weight"@,
        Weight::KvANorm => "attn_kv_a_norm.weight"@,
        Weight::KB => "attn_k_b.weight"@,
        Weight::IdxK => "indexer.attn_k.weight"@,
        Weight::IdxQB => "indexer.attn_q_b.weight"@,
        Weight::IdxProj => "indexer.proj.weight"@,
        Weight::PostAttnNorm => "post_attention_norm.weight"@,
        Weight::FfnNorm => if own_norm {
            "ffn_norm.weight"@
        } else {
            "post_attention_norm.weight"@
        },
        Weight::FfnGate => "ffn_gate.weight"@,
        Weight::FfnUp => "ffn_up.weight"@,
        Weight::FfnDown => "ffn_down.weight"@,
        Weight::Router | Weight::NextRouter => "ffn_gate_inp.weight"@,
        Weight::RouterNorm => "ffn_gate_inp.scale"@,
        Weight::RouterBias => "ffn_gate_inp.bias"@,
        Weight::DownScale => "ffn_down_exps.scale"@,
        Weight::SharedGate => if shared {
            "ffn_gate_shexp.weight"@
        } else {
            "ffn_gate.weight"@
        },
        Weight::SharedUp => if shared {
            "ffn_up_shexp.weight"@
        } else {
            "ffn_up.weight"@
        },
        Weight::SharedDown => if shared {
            "ffn_down_shexp.weight"@
        } else {
            "ffn_down.weight"@
        },
        Weight::PostSharedNorm => "post_ffw_norm_1.weight"@,
        Weight::PreRoutedNorm => "pre_ffw_norm_2.weight"@,
        Weight::PostRoutedNorm => "post_ffw_norm_2.weight"@,
        Weight::PostFfnNorm => "post_ffw_norm.weight"@,
        Weight::Decay => "ssm_alpha.weight"@,
        Weight::Beta => "ssm_beta.weight"@,
        Weight::SsmNorm => "ssm_norm.weight"@,
        Weight::SharedGateIn => "ffn_gate_inp_shexp.weight"@,
        Weight::Qkv => "attn_qkv.weight"@,
        Weight::Z => "attn_gate.weight"@,
        Weight::SsmOut => "ssm_out.weight"@,
        Weight::MixQ => "attn_q.weight"@,
        Weight::MixK => "attn_k.weight"@,
        Weight::MixV => "attn_v.weight"@,
        Weight::MixOut => "attn_output.weight"@,
        Weight::ResidentGate => "ffn_gate.weight"@,
        Weight::ResidentUp => "ffn_up.weight"@,
        Weight::ResidentDown => "ffn_down.weight"@,
        Weight::Rotate | Weight::Coeffs => ""@,
    }
}

/// What the weight `w` of a layer that loads `v` is called. The norm before
/// the feed-forward part and the always-on expert each go under one of two
/// names.
pub fn part_of(v: &Vec<Step>, w: Weight) -> (n: &'static str)
    ensures
        n@ == part_name(v@, w),
{
    let own_norm: bool = has(v, "ffn_norm.weight");
    let shared: bool = has(v, "ffn_gate_shexp.weight");
    match w {
        Weight::AttnNorm => "attn_norm.weight",
        Weight::AttnQ => "attn_q.weight",
        Weight::AttnK => "attn_k.weight",
        Weight::AttnV => "attn_v.weight",
        Weight::BiasQ => "attn_q.bias",
        Weight::BiasK => "attn_k.bias",
        Weight::BiasV => "attn_v.bias",
        Weight::BiasOut => "attn_output.bias",
        Weight::ConvK => "shortconv_k.weight",
        Weight::ConvV => "shortconv_v.weight",
        Weight::ConvAttn => "shortconv_attn.weight",
        Weight::ConvMlp => "shortconv_mlp.weight",
        Weight::QNorm => "attn_q_norm.weight",
        Weight::KNorm => "attn_k_norm.weight",
        Weight::Rel => "attn_r.weight",
        Weight::RelProj => "attn_rel_proj.weight",
        Weight::HeadGate => "attn_gate.weight",
        Weight::AttnOutput => "attn_output.weight",
        Weight::QA => "attn_q_a.weight",
        Weight::QANorm => "attn_q_a_norm.weight",
        Weight::QB => "attn_q_b.weight",
        Weight::KvA => "attn_kv_a_mqa.weight",
        Weight::KvANorm => "attn_kv_a_norm.weight",
        Weight::KB => "attn_k_b.weight",
        Weight::IdxK => "indexer.attn_k.weight",
        Weight::IdxQB => "indexer.attn_q_b.weight",
        Weight::IdxProj => "indexer.proj.weight",
        Weight::PostAttnNorm => "post_attention_norm.weight",
        Weight::FfnNorm => if own_norm {
            "ffn_norm.weight"
        } else {
            "post_attention_norm.weight"
        },
        Weight::FfnGate => "ffn_gate.weight",
        Weight::FfnUp => "ffn_up.weight",
        Weight::FfnDown => "ffn_down.weight",
        Weight::Router | Weight::NextRouter => "ffn_gate_inp.weight",
        Weight::RouterNorm => "ffn_gate_inp.scale",
        Weight::RouterBias => "ffn_gate_inp.bias",
        Weight::DownScale => "ffn_down_exps.scale",
        Weight::SharedGate => if shared {
            "ffn_gate_shexp.weight"
        } else {
            "ffn_gate.weight"
        },
        Weight::SharedUp => if shared {
            "ffn_up_shexp.weight"
        } else {
            "ffn_up.weight"
        },
        Weight::SharedDown => if shared {
            "ffn_down_shexp.weight"
        } else {
            "ffn_down.weight"
        },
        Weight::PostSharedNorm => "post_ffw_norm_1.weight",
        Weight::PreRoutedNorm => "pre_ffw_norm_2.weight",
        Weight::PostRoutedNorm => "post_ffw_norm_2.weight",
        Weight::PostFfnNorm => "post_ffw_norm.weight",
        Weight::Decay => "ssm_alpha.weight",
        Weight::Beta => "ssm_beta.weight",
        Weight::SsmNorm => "ssm_norm.weight",
        Weight::SharedGateIn => "ffn_gate_inp_shexp.weight",
        Weight::Qkv => "attn_qkv.weight",
        Weight::Z => "attn_gate.weight",
        Weight::SsmOut => "ssm_out.weight",
        Weight::MixQ => "attn_q.weight",
        Weight::MixK => "attn_k.weight",
        Weight::MixV => "attn_v.weight",
        Weight::MixOut => "attn_output.weight",
        Weight::ResidentGate => "ffn_gate.weight",
        Weight::ResidentUp => "ffn_up.weight",
        Weight::ResidentDown => "ffn_down.weight",
        Weight::Rotate | Weight::Coeffs => "",
    }
}

/// What the launches of grouped-query attention go by.
pub fn gqa_parts(v: &Vec<Step>, relative: bool, factors: bool) -> (p: GqaParts)
    ensures
        p == (GqaParts {
            relative,
            out_gate: holds(v@, "attn_gate.weight"@),
            q_norm: holds(v@, "attn_q_norm.weight"@),
            factors,
        }),
{
    GqaParts {
        relative,
        out_gate: has(v, "attn_gate.weight"),
        q_norm: has(v, "attn_q_norm.weight"),
        factors,
    }
}

/// What the launches of the attention half go by: what the layer has, the
/// reach of its relative-position bias, and whether its card is another one.
pub fn attn_facts(v: &Vec<Step>, relative: Option<u32>, attn: i32, primary: i32, rotate: bool) -> (f:
    AttnFacts)
    ensures
        f == (AttnFacts {
            far: attn != primary,
            bias: holds(v@, "attn_q.bias"@),
            has_v: holds(v@, "attn_v.weight"@),
            relative,
            q_norm: holds(v@, "attn_q_norm.weight"@),
            k_norm: holds(v@, "attn_k_norm.weight"@),
            head_gate: holds(v@, "attn_gate.weight"@),
            rotate,
            post_norm: holds(v@, "pre_ffw_norm_2.weight"@),
        }),
{
    AttnFacts {
        far: attn != primary,
        bias: has(v, "attn_q.bias"),
        has_v: has(v, "attn_v.weight"),
        relative,
        q_norm: has(v, "attn_q_norm.weight"),
        k_norm: has(v, "attn_k_norm.weight"),
        head_gate: has(v, "attn_gate.weight"),
        rotate,
        post_norm: has(v, "pre_ffw_norm_2.weight"),
    }
}

/// Why a latent-attention layer cannot run.
#[derive(Clone, Copy, Debug, PartialEq, Eq, Structural)]
pub enum LatentError {
    /// There is no position that far.
    Position,
    /// No layer has selected rows yet.
    NoSelection,
}

/// The selection once it lies on the card that is to read it.
pub open spec fn hopped(s: Selection, dev: i32, known: bool) -> Selection {
    if s.must_hop(dev, known) {
        Selection { len: s.len, dev }
    } else {
        s
    }
}

/// What a latent-attention layer over the tokens from `pos` on goes by.
pub open spec fn latent_of(
    v: Seq<Step>,
    s: &Shape,
    sel: Selection,
    il: int,
    dev: i32,
    known: bool,
    pos: u32,
    n_tok: u32,
) -> Result<LatentFacts, LatentError> {
    let indexed = holds(v, "indexer.attn_q_b.weight"@);
    let visible = (pos + n_tok) as u32;
    if pos + n_tok > u32::MAX {
        Err(LatentError::Position)
    } else {
        match attn::rows_of(
            hopped(sel, dev, known),
            s.n_idx_topk,
            visible,
            il,
            s.n_leading_dense,
            indexed,
        ) {
            Some(rows) => Ok(
                LatentFacts {
                    hop: if sel.must_hop(dev, known) {
                        Some(sel.len)
                    } else {
                        None
                    },
                    keeps_keys: indexed && geom::full_indexer(il, s.n_leading_dense as int),
                    rows,
                    visible,
                    batch: n_tok > 1,
                },
            ),
            None => Err(LatentError::NoSelection),
        }
    }
}

/// What a latent-attention layer on card `dev` goes by. Brings the live
/// selection to its card and leaves the layer's own. `known` says that the
/// card of the live selection has scratch buffers.
pub fn latent_facts(
    v: &Vec<Step>,
    s: &Shape,
    sel: &mut Selection,
    il: usize,
    dev: i32,
    known: bool,
    pos: u32,
    n_tok: u32,
) -> (r: Result<LatentFacts, LatentError>)
    ensures
        r == latent_of(v@, s, *old(sel), il as int, dev, known, pos, n_tok),
        *final(sel) == (match r {
            Ok(f) => attn::left_by(hopped(*old(sel), dev, known), f.rows, dev),
            Err(LatentError::Position) => *old(sel),
            Err(LatentError::NoSelection) => hopped(*old(sel), dev, known),
        }),
{
    let indexed: bool = has(v, "indexer.attn_q_b.weight");
    let visible: u32 = match pos.checked_add(n_tok) {
        Some(n) => n,
        None => {
            return Err(LatentError::Position);
        },
    };
    let hop: Option<u32> = sel.hop(dev, known);
    assert(*sel == hopped(*old(sel), dev, known));
    match sel.select(s.n_idx_topk, visible, il, s.n_leading_dense, indexed, dev) {
        Ok(rows) => Ok(
            LatentFacts {
                hop,
                keeps_keys: indexed && geom::uses_full_indexer(il, s.n_leading_dense),
                rows,
                visible,
                batch: n_tok > 1,
            },
        ),
        Err(_) => Err(LatentError::NoSelection),
    }
}

/// What a layer has for its feed-forward half. `scale` and `out_scale` are
/// its scalars as float bits, `sink` says that its shared experts are slots
/// of the bank, and `next` is the kind of the layer behind it.
pub fn ffn_parts(
    v: &Vec<Step>,
    scale: Option<u32>,
    out_scale: Option<u32>,
    sink: bool,
    next: Option<FfnKind>,
) -> (p: FfnParts)
    ensures
        p == (FfnParts {
            scale,
            conv: holds(v@, "shortconv_mlp.weight"@),
            sandwich: holds(v@, "pre_ffw_norm_2.weight"@),
            router_bias: holds(v@, "ffn_gate_inp.bias"@),
            down_scale: holds(v@, "ffn_down_exps.scale"@),
            shared_expert: holds(v@, "ffn_gate_shexp.weight"@) || holds(v@, "ffn_gate.weight"@),
            sink,
            out_scale,
            next_moe: next == Some(FfnKind::Moe),
        }),
{
    FfnParts {
        scale,
        conv: has(v, "shortconv_mlp.weight"),
        sandwich: has(v, "pre_ffw_norm_2.weight"),
        router_bias: has(v, "ffn_gate_inp.bias"),
        down_scale: has(v, "ffn_down_exps.scale"),
        shared_expert: has(v, "ffn_gate_shexp.weight") || has(v, "ffn_gate.weight"),
        sink,
        out_scale,
        next_moe: match next {
            Some(FfnKind::Moe) => true,
            _ => false,
        },
    }
}

/// What a hybrid layer of kind `kind` goes by, over `t` tokens and on one
/// card.
pub fn hybrid_facts(
    v: &Vec<Step>,
    kind: FfnKind,
    t: u32,
    ctx: u32,
    exact_kv: bool,
    rotate: bool,
) -> (f: HybridFacts)
    ensures
        f == (HybridFacts {
            has_gdn: holds(v@, "attn_qkv.weight"@),
            has_attn: holds(v@, "attn_q.weight"@),
            half_mixer: false,
            resident_ffn: kind == FfnKind::DenseKq,
            half_ffn: false,
            has_experts: kind == FfnKind::Moe,
            shared_expert: holds(v@, "ffn_gate_shexp.weight"@),
            t,
            ctx,
            exact_kv,
            rotate,
        }),
{
    HybridFacts {
        has_gdn: has(v, "attn_qkv.weight"),
        has_attn: has(v, "attn_q.weight"),
        half_mixer: false,
        resident_ffn: kind == FfnKind::DenseKq,
        half_ffn: false,
        has_experts: kind == FfnKind::Moe,
        shared_expert: has(v, "ffn_gate_shexp.weight"),
        t,
        ctx,
        exact_kv,
        rotate,
    }
}

/// What decides whether a hybrid layer on one card replays inside a graph.
pub fn graph_facts(v: &Vec<Step>, kind: FfnKind, drafting: bool, ctx: u32, exact_kv: bool) -> (f:
    GraphFacts)
    ensures
        f == (GraphFacts {
            drafting,
            resident_ffn: kind == FfnKind::DenseKq,
            has_gdn: holds(v@, "attn_qkv.weight"@),
            has_attn: holds(v@, "attn_q.weight"@),
            split_attn: false,
            two_cards: false,
            ctx,
            exact_kv,
        }),
{
    GraphFacts {
        drafting,
        resident_ffn: kind == FfnKind::DenseKq,
        has_gdn: has(v, "attn_qkv.weight"),
        has_attn: has(v, "attn_q.weight"),
        split_attn: false,
        two_cards: false,
        ctx,
        exact_kv,
    }
}

/// The mixer's input weights in the order they read, and its output weight.
pub fn mixer_names(gdn: bool) -> (n: [&'static str; 4])
    ensures
        ({
            let (a, b, c, d) = if gdn {
                ("attn_qkv.weight"@, "attn_gate.weight"@, "attn_gate.weight"@, "ssm_out.weight"@)
            } else {
                ("attn_q.weight"@, "attn_k.weight"@, "attn_v.weight"@, "attn_output.weight"@)
            };
            n@[0]@ == a && n@[1]@ == b && n@[2]@ == c && n@[3]@ == d
        }),
{
    if gdn {
        ["attn_qkv.weight", "attn_gate.weight", "attn_gate.weight", "ssm_out.weight"]
    } else {
        ["attn_q.weight", "attn_k.weight", "attn_v.weight", "attn_output.weight"]
    }
}

/// The weights of latent attention that are copied ahead of their layer.
pub fn staged() -> (n: [&'static str; 6])
    ensures
        n@[0]@ == "attn_q_a.weight"@,
        n@[1]@ == "attn_q_b.weight"@,
        n@[2]@ == "attn_kv_a_mqa.weight"@,
        n@[3]@ == "attn_k_b.weight"@,
        n@[4]@ == "attn_v_b.weight"@,
        n@[5]@ == "attn_output.weight"@,
{
    [
        "attn_q_a.weight",
        "attn_q_b.weight",
        "attn_kv_a_mqa.weight",
        "attn_k_b.weight",
        "attn_v_b.weight",
        "attn_output.weight",
    ]
}

} // verus!
