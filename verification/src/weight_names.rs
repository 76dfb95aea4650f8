//! What the weights that launches read are called in the file.

use vstd::prelude::*;

use crate::draft_graph;
use crate::draft_graph::DraftWeight;
use crate::graph::Weight;
use crate::header;
use crate::header::Header;
use crate::layer_loads;
use crate::layer_plan;
use crate::layer_plan::{Form, Home, Step};
use crate::parts;
use crate::shape::{Arch, Family, Shape};

verus! {

/// The weights of attention, of the delta rule and of their norms go by
/// names of their own.
pub proof fn attention_weights_are_named(v: Seq<Step>)
    ensures
        parts::part_name(v, Weight::AttnNorm) == "attn_norm.weight"@,
        parts::part_name(v, Weight::AttnQ) == "attn_q.weight"@,
        parts::part_name(v, Weight::AttnK) == "attn_k.weight"@,
        parts::part_name(v, Weight::AttnV) == "attn_v.weight"@,
        parts::part_name(v, Weight::BiasQ) == "attn_q.bias"@,
        parts::part_name(v, Weight::BiasK) == "attn_k.bias"@,
        parts::part_name(v, Weight::BiasV) == "attn_v.bias"@,
        parts::part_name(v, Weight::BiasOut) == "attn_output.bias"@,
        parts::part_name(v, Weight::ConvK) == "shortconv_k.weight"@,
        parts::part_name(v, Weight::ConvV) == "shortconv_v.weight"@,
        parts::part_name(v, Weight::ConvAttn) == "shortconv_attn.weight"@,
        parts::part_name(v, Weight::QNorm) == "attn_q_norm.weight"@,
        parts::part_name(v, Weight::KNorm) == "attn_k_norm.weight"@,
        parts::part_name(v, Weight::Rel) == "attn_r.weight"@,
        parts::part_name(v, Weight::RelProj) == "attn_rel_proj.weight"@,
        parts::part_name(v, Weight::HeadGate) == "attn_gate.weight"@,
        parts::part_name(v, Weight::AttnOutput) == "attn_output.weight"@,
        parts::part_name(v, Weight::QA) == "attn_q_a.weight"@,
        parts::part_name(v, Weight::QANorm) == "attn_q_a_norm.weight"@,
        parts::part_name(v, Weight::QB) == "attn_q_b.weight"@,
        parts::part_name(v, Weight::KvA) == "attn_kv_a_mqa.weight"@,
        parts::part_name(v, Weight::KvANorm) == "attn_kv_a_norm.weight"@,
        parts::part_name(v, Weight::KB) == "attn_k_b.weight"@,
        parts::part_name(v, Weight::IdxK) == "indexer.attn_k.weight"@,
        parts::part_name(v, Weight::IdxQB) == "indexer.attn_q_b.weight"@,
        parts::part_name(v, Weight::IdxProj) == "indexer.proj.weight"@,
        parts::part_name(v, Weight::PostAttnNorm) == "post_attention_norm.weight"@,
        parts::part_name(v, Weight::Decay) == "ssm_alpha.weight"@,
        parts::part_name(v, Weight::Beta) == "ssm_beta.weight"@,
        parts::part_name(v, Weight::SsmNorm) == "ssm_norm.weight"@,
        parts::part_name(v, Weight::Qkv) == "attn_qkv.weight"@,
        parts::part_name(v, Weight::Z) == "attn_gate.weight"@,
        parts::part_name(v, Weight::SsmOut) == "ssm_out.weight"@,
        parts::part_name(v, Weight::MixQ) == "attn_q.weight"@,
        parts::part_name(v, Weight::MixK) == "attn_k.weight"@,
        parts::part_name(v, Weight::MixV) == "attn_v.weight"@,
        parts::part_name(v, Weight::MixOut) == "attn_output.weight"@,
{
}

/// The weights of feed-forwards and routers go by names of their own; a
/// layer without shared experts feeds forward beside its routed ones by its
/// plain weights, and one without a norm of its own by the norm behind its
/// attention; what is made at load has no name.
pub proof fn feed_forward_weights_are_named(v: Seq<Step>)
    ensures
        parts::part_name(v, Weight::ConvMlp) == "shortconv_mlp.weight"@,
        parts::part_name(v, Weight::FfnGate) == "ffn_gate.weight"@,
        parts::part_name(v, Weight::FfnUp) == "ffn_up.weight"@,
        parts::part_name(v, Weight::FfnDown) == "ffn_down.weight"@,
        parts::part_name(v, Weight::NextRouter) == "ffn_gate_inp.weight"@,
        parts::part_name(v, Weight::RouterNorm) == "ffn_gate_inp.scale"@,
        parts::part_name(v, Weight::RouterBias) == "ffn_gate_inp.bias"@,
        parts::part_name(v, Weight::DownScale) == "ffn_down_exps.scale"@,
        parts::part_name(v, Weight::PostSharedNorm) == "post_ffw_norm_1.weight"@,
        parts::part_name(v, Weight::PreRoutedNorm) == "pre_ffw_norm_2.weight"@,
        parts::part_name(v, Weight::PostRoutedNorm) == "post_ffw_norm_2.weight"@,
        parts::part_name(v, Weight::PostFfnNorm) == "post_ffw_norm.weight"@,
        parts::part_name(v, Weight::SharedGateIn) == "ffn_gate_inp_shexp.weight"@,
        parts::part_name(v, Weight::ResidentGate) == "ffn_gate.weight"@,
        parts::part_name(v, Weight::ResidentUp) == "ffn_up.weight"@,
        parts::part_name(v, Weight::ResidentDown) == "ffn_down.weight"@,
        parts::part_name(v, Weight::Router) == "ffn_gate_inp.weight"@,
        parts::part_name(v, Weight::NextRouter) == "ffn_gate_inp.weight"@,
        parts::part_name(v, Weight::Rotate).len() == 0,
        parts::part_name(v, Weight::Coeffs).len() == 0,
        parts::holds(v, "ffn_norm.weight"@) ==> parts::part_name(v, Weight::FfnNorm)
            == "ffn_norm.weight"@,
        !parts::holds(v, "ffn_norm.weight"@) ==> parts::part_name(v, Weight::FfnNorm)
            == "post_attention_norm.weight"@,
        parts::holds(v, "ffn_gate_shexp.weight"@) ==> parts::part_name(v, Weight::SharedGate)
            == "ffn_gate_shexp.weight"@ && parts::part_name(v, Weight::SharedUp)
            == "ffn_up_shexp.weight"@ && parts::part_name(v, Weight::SharedDown)
            == "ffn_down_shexp.weight"@,
        !parts::holds(v, "ffn_gate_shexp.weight"@) ==> parts::part_name(v, Weight::SharedGate)
            == "ffn_gate.weight"@ && parts::part_name(v, Weight::SharedUp) == "ffn_up.weight"@
            && parts::part_name(v, Weight::SharedDown) == "ffn_down.weight"@,
{
    reveal_strlit("");
}

/// A layer has a part where some step loads it other than as streamed slabs.
pub proof fn layers_hold_what_they_load(v: Seq<Step>, part: Seq<char>)
    ensures
        parts::holds(v, part) <==> exists|k: int|
            0 <= k < v.len() && (#[trigger] v[k]).part@ == part && v[k].form != Form::Experts
                && v[k].form != Form::SharedExperts,
{
    if parts::holds(v, part) {
        let k = choose|k: int| 0 <= k < v.len() && parts::keeps(#[trigger] v[k], part);
        assert(v[k].part@ == part);
    }
    if exists|k: int|
        0 <= k < v.len() && (#[trigger] v[k]).part@ == part && v[k].form != Form::Experts
            && v[k].form != Form::SharedExperts {
        let k = choose|k: int|
            0 <= k < v.len() && (#[trigger] v[k]).part@ == part && v[k].form != Form::Experts
                && v[k].form != Form::SharedExperts;
        assert(parts::keeps(v[k], part));
    }
}

/// The products of grouped-query attention read weights that its layers
/// load.
pub proof fn grouped_launches_read_loaded_weights(
    h: &Header,
    s: &Shape,
    arch: Arch,
    il: nat,
    ratio: u32,
)
    requires
        s.family == Family::Gqa,
    ensures
        ({
            let v = layer_plan::layer_steps(h, s, arch, il, ratio);
            &&& parts::holds(v, parts::part_name(v, Weight::AttnQ))
            &&& parts::holds(v, parts::part_name(v, Weight::AttnK))
            &&& parts::holds(v, parts::part_name(v, Weight::AttnOutput))
            &&& parts::holds(v, parts::part_name(v, Weight::AttnNorm))
        }),
{
    let v = layer_plan::layer_steps(h, s, arch, il, ratio);
    layer_loads::layers_load_four_parts(h, s, arch, il, ratio);
    layer_loads::grouped_attention_loads(h, s, il, ratio);
    layer_loads::layers_end_with_norms(h, il);
    lemma_held(v, "attn_q.weight"@, Form::Attn, Home::Attn);
    lemma_held(v, "attn_k.weight"@, Form::Attn, Home::Attn);
    lemma_held(v, "attn_output.weight"@, Form::Attn, Home::Attn);
    lemma_held(v, "attn_norm.weight"@, Form::Plain, Home::After);
}

/// The products of latent attention read weights that its layers load.
pub proof fn latent_launches_read_loaded_weights(
    h: &Header,
    s: &Shape,
    arch: Arch,
    il: nat,
    ratio: u32,
)
    requires
        s.family == Family::Mla,
    ensures
        ({
            let v = layer_plan::layer_steps(h, s, arch, il, ratio);
            &&& parts::holds(v, parts::part_name(v, Weight::QA))
            &&& parts::holds(v, parts::part_name(v, Weight::QANorm))
            &&& parts::holds(v, parts::part_name(v, Weight::QB))
            &&& parts::holds(v, parts::part_name(v, Weight::KvA))
            &&& parts::holds(v, parts::part_name(v, Weight::KvANorm))
            &&& parts::holds(v, parts::part_name(v, Weight::KB))
            &&& parts::holds(v, parts::part_name(v, Weight::AttnOutput))
            &&& parts::holds(v, parts::part_name(v, Weight::AttnNorm))
        }),
{
    let v = layer_plan::layer_steps(h, s, arch, il, ratio);
    layer_loads::layers_load_four_parts(h, s, arch, il, ratio);
    layer_loads::latent_attention_loads(h, s, il, ratio);
    layer_loads::layers_end_with_norms(h, il);
    lemma_held(v, "attn_q_a.weight"@, Form::Small, Home::Attn);
    lemma_held(v, "attn_q_a_norm.weight"@, Form::Plain, Home::Attn);
    lemma_held(v, "attn_q_b.weight"@, Form::Attn, Home::Attn);
    lemma_held(v, "attn_kv_a_mqa.weight"@, Form::Small, Home::Attn);
    lemma_held(v, "attn_kv_a_norm.weight"@, Form::Plain, Home::Attn);
    lemma_held(v, "attn_k_b.weight"@, Form::Small, Home::Attn);
    lemma_held(v, "attn_output.weight"@, Form::Attn, Home::Attn);
    lemma_held(v, "attn_norm.weight"@, Form::Plain, Home::After);
}

proof fn lemma_held(v: Seq<Step>, part: Seq<char>, f: Form, m: Home)
    requires
        layer_loads::loads(v, part, f, m),
        f != Form::Experts,
        f != Form::SharedExperts,
    ensures
        parts::holds(v, part),
{
    let k = choose|k: int|
        0 <= k < v.len() && (#[trigger] v[k]).part@ == part && v[k].form == f && v[k].home == m;
    assert(parts::keeps(v[k], part));
}

/// The weights of a draft go by the names of its layers and by its own; those
/// of the extra layer by the names of the layer behind the last.
pub proof fn draft_weights_are_named(il: u32, extra: u32)
    ensures
        draft_graph::weight_name(DraftWeight::AttnNorm(il), extra) == header::blk_name(il as nat, "attn_norm.weight"@),
        draft_graph::weight_name(DraftWeight::Q(il), extra) == header::blk_name(il as nat, "attn_q.weight"@),
        draft_graph::weight_name(DraftWeight::K(il), extra) == header::blk_name(il as nat, "attn_k.weight"@),
        draft_graph::weight_name(DraftWeight::V(il), extra) == header::blk_name(il as nat, "attn_v.weight"@),
        draft_graph::weight_name(DraftWeight::QNorm(il), extra) == header::blk_name(il as nat, "attn_q_norm.weight"@),
        draft_graph::weight_name(DraftWeight::KNorm(il), extra) == header::blk_name(il as nat, "attn_k_norm.weight"@),
        draft_graph::weight_name(DraftWeight::Out(il), extra) == header::blk_name(il as nat, "attn_output.weight"@),
        draft_graph::weight_name(DraftWeight::FfnNorm(il), extra) == header::blk_name(il as nat, "post_attention_norm.weight"@),
        draft_graph::weight_name(DraftWeight::Gate(il), extra) == header::blk_name(il as nat, "ffn_gate.weight"@),
        draft_graph::weight_name(DraftWeight::Up(il), extra) == header::blk_name(il as nat, "ffn_up.weight"@),
        draft_graph::weight_name(DraftWeight::Down(il), extra) == header::blk_name(il as nat, "ffn_down.weight"@),
        draft_graph::weight_name(DraftWeight::Fuse, extra) == "dflash_fc.weight"@,
        draft_graph::weight_name(DraftWeight::HiddenNorm, extra) == "dflash_hidden_norm.weight"@,
        draft_graph::weight_name(DraftWeight::OutNorm, extra) == "output_norm.weight"@,
        draft_graph::weight_name(DraftWeight::TokenNorm, extra) == header::blk_name(extra as nat, "nextn.enorm.weight"@),
        draft_graph::weight_name(DraftWeight::StreamNorm, extra) == header::blk_name(extra as nat, "nextn.hnorm.weight"@),
        draft_graph::weight_name(DraftWeight::Joint, extra) == header::blk_name(extra as nat, "nextn.eh_proj.weight"@),
        draft_graph::weight_name(DraftWeight::HeadNorm, extra) == header::blk_name(extra as nat, "nextn.shared_head_norm.weight"@),
{
}

} // verus!
